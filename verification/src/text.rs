//! The bitmap font: glyphs five dots wide and seven dots tall, drawn in
//! blocks of pixels.

use vstd::prelude::*;
use vstd::string::*;
use vstd::arithmetic::div_mod::lemma_fundamental_div_mod;
use vstd::arithmetic::div_mod::lemma_fundamental_div_mod_converse;
use vstd::arithmetic::div_mod::lemma_mod_bound;
use crate::color::Color;
use crate::framebuffer::Framebuffer;
use crate::framebuffer::in_rect;

verus! {

/// How many dots wide a glyph is.
pub const GLYPH_COLUMNS: u32 = 5;

/// How many dots tall a glyph is.
pub const GLYPH_ROWS: u32 = 7;

/// The dots of the glyph of a character: seven rows of five bits, the top
/// row first and the leftmost dot first.  A character without a glyph of
/// its own is a full block.
pub open spec fn spec_glyph(ch: char) -> u64 {
    match ch {
        '0' => 0b01110_10001_10001_10001_10001_10001_01110,
        '1' => 0b00100_01100_00100_00100_00100_00100_01110,
        '2' => 0b01110_10001_00001_00110_01000_10000_11111,
        '3' => 0b01110_10001_00001_00110_00001_10001_01110,
        '4' => 0b10001_10001_10001_11111_00001_00001_00001,
        '5' => 0b11111_10000_10000_11110_00001_10001_01110,
        '6' => 0b01110_10001_10000_11110_10001_10001_01110,
        '7' => 0b11111_00001_00010_00100_01000_01000_01000,
        '8' => 0b01110_10001_10001_01110_10001_10001_01110,
        '9' => 0b01110_10001_10001_01111_00001_10001_01110,
        '.' => 0b00000_00000_00000_00000_00000_00000_01100,
        'A' => 0b01110_10001_10001_11111_10001_10001_10001,
        'B' => 0b11110_10001_10001_11110_10001_10001_11110,
        'C' => 0b01110_10001_10000_10000_10000_10001_01110,
        'D' => 0b11110_10001_10001_10001_10001_10001_11110,
        'E' => 0b11111_10000_10000_11110_10000_10000_11111,
        'F' => 0b11111_10000_10000_11110_10000_10000_10000,
        'G' => 0b01110_10001_10000_10111_10001_10001_01110,
        'M' => 0b10001_11011_10101_10001_10001_10001_10001,
        'N' => 0b10001_11001_10101_10011_10001_10001_10001,
        'O' => 0b01110_10001_10001_10001_10001_10001_01110,
        'P' => 0b11110_10001_10001_11110_10000_10000_10000,
        'R' => 0b11110_10001_10001_11110_10100_10010_10001,
        'S' => 0b01111_10000_10000_01110_00001_00001_11110,
        'T' => 0b11111_00100_00100_00100_00100_00100_00100,
        'a' => 0b00000_01110_00001_01111_10001_10001_01111,
        'c' => 0b00000_01110_10000_10000_10000_10001_01110,
        'd' => 0b00001_00001_01111_10001_10001_10001_01111,
        'e' => 0b00000_01110_10001_11111_10000_10001_01110,
        'g' => 0b00000_01111_10001_10001_01111_00001_01110,
        'h' => 0b10000_10000_11110_10001_10001_10001_10001,
        'i' => 0b00100_00000_01100_00100_00100_00100_01110,
        'm' => 0b00000_11010_10101_10101_10101_10001_10001,
        'n' => 0b00000_11110_10001_10001_10001_10001_10001,
        'o' => 0b00000_01110_10001_10001_10001_10001_01110,
        'p' => 0b00000_11110_10001_10001_11110_10000_10000,
        'r' => 0b00000_10110_11001_10000_10000_10000_10000,
        's' => 0b00000_01111_10000_01110_00001_00001_11110,
        't' => 0b01000_01000_11110_01000_01000_01001_00110,
        'u' => 0b00000_10001_10001_10001_10001_10001_01111,
        'w' => 0b00000_10001_10001_10001_10101_11011_10001,
        'y' => 0b00000_10001_10001_01010_00100_01000_10000,
        ':' => 0b00000_01100_01100_00000_01100_01100_00000,
        '(' => 0b00010_00100_01000_01000_01000_00100_00010,
        ')' => 0b01000_00100_00010_00010_00010_00100_01000,
        ' ' => 0b00000_00000_00000_00000_00000_00000_00000,
        _ => 0b11111_11111_11111_11111_11111_11111_11111,
    }
}

/// The dots of the glyph of a character.
#[verifier::when_used_as_spec(spec_glyph)]
pub fn glyph(ch: char) -> (bits: u64)
    ensures
        bits == spec_glyph(ch),
{
    match ch {
        '0' => 0b01110_10001_10001_10001_10001_10001_01110,
        '1' => 0b00100_01100_00100_00100_00100_00100_01110,
        '2' => 0b01110_10001_00001_00110_01000_10000_11111,
        '3' => 0b01110_10001_00001_00110_00001_10001_01110,
        '4' => 0b10001_10001_10001_11111_00001_00001_00001,
        '5' => 0b11111_10000_10000_11110_00001_10001_01110,
        '6' => 0b01110_10001_10000_11110_10001_10001_01110,
        '7' => 0b11111_00001_00010_00100_01000_01000_01000,
        '8' => 0b01110_10001_10001_01110_10001_10001_01110,
        '9' => 0b01110_10001_10001_01111_00001_10001_01110,
        '.' => 0b00000_00000_00000_00000_00000_00000_01100,
        'A' => 0b01110_10001_10001_11111_10001_10001_10001,
        'B' => 0b11110_10001_10001_11110_10001_10001_11110,
        'C' => 0b01110_10001_10000_10000_10000_10001_01110,
        'D' => 0b11110_10001_10001_10001_10001_10001_11110,
        'E' => 0b11111_10000_10000_11110_10000_10000_11111,
        'F' => 0b11111_10000_10000_11110_10000_10000_10000,
        'G' => 0b01110_10001_10000_10111_10001_10001_01110,
        'M' => 0b10001_11011_10101_10001_10001_10001_10001,
        'N' => 0b10001_11001_10101_10011_10001_10001_10001,
        'O' => 0b01110_10001_10001_10001_10001_10001_01110,
        'P' => 0b11110_10001_10001_11110_10000_10000_10000,
        'R' => 0b11110_10001_10001_11110_10100_10010_10001,
        'S' => 0b01111_10000_10000_01110_00001_00001_11110,
        'T' => 0b11111_00100_00100_00100_00100_00100_00100,
        'a' => 0b00000_01110_00001_01111_10001_10001_01111,
        'c' => 0b00000_01110_10000_10000_10000_10001_01110,
        'd' => 0b00001_00001_01111_10001_10001_10001_01111,
        'e' => 0b00000_01110_10001_11111_10000_10001_01110,
        'g' => 0b00000_01111_10001_10001_01111_00001_01110,
        'h' => 0b10000_10000_11110_10001_10001_10001_10001,
        'i' => 0b00100_00000_01100_00100_00100_00100_01110,
        'm' => 0b00000_11010_10101_10101_10101_10001_10001,
        'n' => 0b00000_11110_10001_10001_10001_10001_10001,
        'o' => 0b00000_01110_10001_10001_10001_10001_01110,
        'p' => 0b00000_11110_10001_10001_11110_10000_10000,
        'r' => 0b00000_10110_11001_10000_10000_10000_10000,
        's' => 0b00000_01111_10000_01110_00001_00001_11110,
        't' => 0b01000_01000_11110_01000_01000_01001_00110,
        'u' => 0b00000_10001_10001_10001_10001_10001_01111,
        'w' => 0b00000_10001_10001_10001_10101_11011_10001,
        'y' => 0b00000_10001_10001_01010_00100_01000_10000,
        ':' => 0b00000_01100_01100_00000_01100_01100_00000,
        '(' => 0b00010_00100_01000_01000_01000_00100_00010,
        ')' => 0b01000_00100_00010_00010_00010_00100_01000,
        ' ' => 0b00000_00000_00000_00000_00000_00000_00000,
        _ => 0b11111_11111_11111_11111_11111_11111_11111,
    }
}

/// Whether the dot in row `row` and column `col` of a glyph is set.
pub open spec fn spec_dot(bits: u64, row: u32, col: u32) -> bool {
    row < GLYPH_ROWS && col < GLYPH_COLUMNS && (bits >> ((34 - (row * 5 + col)) as u64)) & 1 == 1
}

/// Whether the dot in row `row` and column `col` of a glyph is set.
#[verifier::when_used_as_spec(spec_dot)]
pub fn dot(bits: u64, row: u32, col: u32) -> (set: bool)
    ensures
        set == spec_dot(bits, row, col),
{
    if row < GLYPH_ROWS && col < GLYPH_COLUMNS {
        let shift: u32 = 34 - (row * 5 + col);
        (bits >> (shift as u64)) & 1 == 1
    } else {
        false
    }
}

/// Which block along an axis holds a pixel: blocks are `size` pixels wide
/// and the first starts at `origin`.
pub open spec fn block_of(origin: int, size: int, p: int) -> int {
    (p - origin) / size
}

/// Whether the glyph of `ch`, drawn `width` wide and `height` tall with its
/// top left corner at `(x, y)`, covers the pixel `(px, py)`.  A dot is a
/// block a fifth of the width wide and a seventh of the height tall.
pub open spec fn glyph_covers(ch: char, x: int, y: int, width: int, height: int, px: int, py: int)
    -> bool {
    let dot_w = width / 5;
    let dot_h = height / 7;
    &&& dot_w > 0
    &&& dot_h > 0
    &&& px >= x
    &&& py >= y
    &&& block_of(x, dot_w, px) < GLYPH_COLUMNS
    &&& block_of(y, dot_h, py) < GLYPH_ROWS
    &&& dot(glyph(ch), block_of(y, dot_h, py) as u32, block_of(x, dot_w, px) as u32)
}

/// Whether a text drawn from `(x, y)` with characters `size` wide and tall,
/// each `size` further right than the one before, covers `(px, py)`.
pub open spec fn text_covers(text: Seq<char>, x: int, y: int, size: int, px: int, py: int) -> bool {
    exists|i: int|
        0 <= i < text.len() && #[trigger] glyph_covers(text[i], x + i * size, y, size, size, px, py)
}

/// A pixel lies in the block with a given index exactly if it lies between
/// the start of that block and the start of the next.
pub proof fn lemma_block_of(origin: int, size: int, index: int, p: int)
    requires
        size > 0,
    ensures
        (origin + index * size <= p < origin + index * size + size) <==> block_of(origin, size, p)
            == index,
{
    let a = p - origin;
    lemma_fundamental_div_mod(a, size);
    lemma_mod_bound(a, size);
    let q = a / size;
    let r = a % size;
    if origin + index * size <= p < origin + index * size + size {
        assert(a == index * size + (a - index * size));
        lemma_fundamental_div_mod_converse(a, size, index, a - index * size);
    }
    if q == index {
        assert(size * q == index * size) by (nonlinear_arith)
            requires
                q == index,
        ;
    }
}

/// The pixel at which the block with a given index starts.
fn block_start(origin: u32, index: u32, size: u32) -> (start: u64)
    ensures
        start == origin + index * size,
{
    assert(index * size <= 0xffff_ffff * 0xffff_ffff) by (nonlinear_arith)
        requires
            0 <= index <= 0xffff_ffff,
            0 <= size <= 0xffff_ffff,
    ;
    (origin as u64) + (index as u64) * (size as u64)
}

impl Framebuffer {
    /// Draws the dots of one row of a glyph.
    fn draw_glyph_row(&mut self, ch: char, x: u32, y: u32, width: u32, height: u32, row: u32)
        requires
            row < GLYPH_ROWS,
            width / 5 > 0,
            height / 7 > 0,
        ensures
            old(self)@.repainted(final(self)@),
            final(self)@.current_color == old(self)@.current_color,
            forall|cx: int, cy: int|
                old(self)@.holds(cx, cy) ==> #[trigger] final(self)@.pixel(cx, cy)
                    == if glyph_covers(
                    ch,
                    x as int,
                    y as int,
                    width as int,
                    height as int,
                    cx,
                    cy,
                ) && block_of(y as int, (height / 7) as int, cy) == row {
                    old(self)@.current_color
                } else {
                    old(self)@.pixel(cx, cy)
                },
    {
        let dot_w: u32 = width / 5;
        let dot_h: u32 = height / 7;
        let bits: u64 = glyph(ch);
        let top: u64 = block_start(y, row, dot_h);
        let ghost before = self@;
        let mut col: u32 = 0;
        while col < GLYPH_COLUMNS
            invariant
                col <= GLYPH_COLUMNS,
                row < GLYPH_ROWS,
                dot_w == width / 5,
                dot_h == height / 7,
                dot_w > 0,
                dot_h > 0,
                bits == glyph(ch),
                top == y + row * dot_h,
                before.repainted(self@),
                self@.current_color == before.current_color,
                forall|cx: int, cy: int|
                    before.holds(cx, cy) ==> #[trigger] self@.pixel(cx, cy) == if glyph_covers(
                        ch,
                        x as int,
                        y as int,
                        width as int,
                        height as int,
                        cx,
                        cy,
                    ) && block_of(y as int, dot_h as int, cy) == row && block_of(
                        x as int,
                        dot_w as int,
                        cx,
                    ) < col {
                        before.current_color
                    } else {
                        before.pixel(cx, cy)
                    },
            decreases GLYPH_COLUMNS - col,
        {
            let left: u64 = block_start(x, col, dot_w);
            let ghost earlier = self@;
            if dot(bits, row, col) && left <= u32::MAX as u64 && top <= u32::MAX as u64 {
                self.fill_rect(left as u32, top as u32, dot_w, dot_h);
            }
            proof {
                let lit = dot(bits, row, col) && left <= u32::MAX && top <= u32::MAX;
                assert forall|cx: int, cy: int| before.holds(cx, cy) implies #[trigger] self@.pixel(
                    cx,
                    cy,
                ) == if glyph_covers(ch, x as int, y as int, width as int, height as int, cx, cy)
                    && block_of(y as int, dot_h as int, cy) == row && block_of(
                    x as int,
                    dot_w as int,
                    cx,
                ) < col + 1 {
                    before.current_color
                } else {
                    before.pixel(cx, cy)
                } by {
                    lemma_block_of(x as int, dot_w as int, col as int, cx);
                    lemma_block_of(y as int, dot_h as int, row as int, cy);
                    assert(earlier.holds(cx, cy));
                    let inside = in_rect(
                        left as int,
                        top as int,
                        dot_w as int,
                        dot_h as int,
                        cx,
                        cy,
                    );
                    assert(inside <==> (block_of(x as int, dot_w as int, cx) == col && block_of(
                        y as int,
                        dot_h as int,
                        cy,
                    ) == row));
                    if inside {
                        assert(cx >= x && cy >= y) by (nonlinear_arith)
                            requires
                                cx >= x + col * dot_w,
                                cy >= y + row * dot_h,
                                col >= 0,
                                row >= 0,
                                dot_w > 0,
                                dot_h > 0,
                        ;
                        assert(left <= u32::MAX && top <= u32::MAX);
                    }
                }
            }
            col = col + 1;
        }
    }

    /// Draws the glyph of `ch`, `width` wide and `height` tall, with its
    /// top left corner at `(x, y)`, in the active colour.
    pub fn draw_char(&mut self, ch: char, x: u32, y: u32, width: u32, height: u32)
        ensures
            old(self)@.repainted(final(self)@),
            final(self)@.current_color == old(self)@.current_color,
            forall|cx: int, cy: int|
                old(self)@.holds(cx, cy) ==> #[trigger] final(self)@.pixel(cx, cy)
                    == if glyph_covers(
                    ch,
                    x as int,
                    y as int,
                    width as int,
                    height as int,
                    cx,
                    cy,
                ) {
                    old(self)@.current_color
                } else {
                    old(self)@.pixel(cx, cy)
                },
    {
        if width / 5 == 0 || height / 7 == 0 {
            return ;
        }
        let ghost before = self@;
        let ghost dot_h = (height / 7) as int;
        let mut row: u32 = 0;
        while row < GLYPH_ROWS
            invariant
                row <= GLYPH_ROWS,
                width / 5 > 0,
                height / 7 > 0,
                dot_h == height / 7,
                before.repainted(self@),
                self@.current_color == before.current_color,
                forall|cx: int, cy: int|
                    before.holds(cx, cy) ==> #[trigger] self@.pixel(cx, cy) == if glyph_covers(
                        ch,
                        x as int,
                        y as int,
                        width as int,
                        height as int,
                        cx,
                        cy,
                    ) && block_of(y as int, dot_h, cy) < row {
                        before.current_color
                    } else {
                        before.pixel(cx, cy)
                    },
            decreases GLYPH_ROWS - row,
        {
            self.draw_glyph_row(ch, x, y, width, height, row);
            row = row + 1;
        }
    }

    /// Draws a text from `(x, y)` in `color`, which becomes the active
    /// colour: each character `font_size` wide and tall, and `font_size`
    /// further right than the one before.
    pub fn draw_text(&mut self, text: &str, x: u32, y: u32, font_size: u32, color: Color)
        ensures
            old(self)@.repainted(final(self)@),
            final(self)@.current_color == color,
            forall|cx: int, cy: int|
                old(self)@.holds(cx, cy) ==> #[trigger] final(self)@.pixel(cx, cy)
                    == if text_covers(text@, x as int, y as int, font_size as int, cx, cy) {
                    color
                } else {
                    old(self)@.pixel(cx, cy)
                },
    {
        self.set_current_color(color);
        let ghost before = old(self)@;
        let count: usize = text.unicode_len();
        let mut i: usize = 0;
        while i < count
            invariant
                i <= count,
                count == text@.len(),
                before.repainted(self@),
                self@.current_color == color,
                forall|cx: int, cy: int|
                    before.holds(cx, cy) ==> #[trigger] self@.pixel(cx, cy) == if text_covers(
                        text@.subrange(0, i as int),
                        x as int,
                        y as int,
                        font_size as int,
                        cx,
                        cy,
                    ) {
                        color
                    } else {
                        before.pixel(cx, cy)
                    },
            decreases count - i,
        {
            let ch: char = text.get_char(i);
            let ghost earlier = self@;
            assert(i * font_size <= usize::MAX * 0xffff_ffff) by (nonlinear_arith)
                requires
                    0 <= i <= usize::MAX,
                    0 <= font_size <= 0xffff_ffff,
            ;
            let left: u128 = (x as u128) + (i as u128) * (font_size as u128);
            if left <= u32::MAX as u128 {
                self.draw_char(ch, left as u32, y, font_size, font_size);
            }
            proof {
                let shorter = text@.subrange(0, i as int);
                let longer = text@.subrange(0, i + 1);
                assert forall|cx: int, cy: int| before.holds(cx, cy) implies #[trigger] self@.pixel(
                    cx,
                    cy,
                ) == if text_covers(longer, x as int, y as int, font_size as int, cx, cy) {
                    color
                } else {
                    before.pixel(cx, cy)
                } by {
                    assert(earlier.holds(cx, cy));
                    let here = glyph_covers(
                        ch,
                        x + i * font_size,
                        y as int,
                        font_size as int,
                        font_size as int,
                        cx,
                        cy,
                    );
                    assert(longer[i as int] == ch);
                    if here {
                        assert(left <= u32::MAX);
                        assert(text_covers(longer, x as int, y as int, font_size as int, cx, cy));
                    }
                    if text_covers(shorter, x as int, y as int, font_size as int, cx, cy) {
                        let k = choose|k: int|
                            0 <= k < shorter.len() && #[trigger] glyph_covers(
                                shorter[k],
                                x + k * font_size,
                                y as int,
                                font_size as int,
                                font_size as int,
                                cx,
                                cy,
                            );
                        assert(longer[k] == shorter[k]);
                    }
                    if text_covers(longer, x as int, y as int, font_size as int, cx, cy) {
                        let k = choose|k: int|
                            0 <= k < longer.len() && #[trigger] glyph_covers(
                                longer[k],
                                x + k * font_size,
                                y as int,
                                font_size as int,
                                font_size as int,
                                cx,
                                cy,
                            );
                        if k < i {
                            assert(shorter[k] == longer[k]);
                        }
                    }
                }
            }
            i = i + 1;
        }
        proof {
            assert(text@.subrange(0, count as int) =~= text@);
        }
    }
}

} // verus!
