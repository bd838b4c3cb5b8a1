//! Pixel-buffer drawing helpers: lines by integer stepping, and text from
//! a fixed 8x8 glyph table.
//!
//! A buffer is a row-major vector of `width * height` pixels; drawing only
//! ever writes `color` into pixels inside the buffer's rectangle.

use vstd::prelude::*;
use vstd::string::StrSliceExecFns;

use crate::num::abs_i;

verus! {

/// The rows of the 8x8 glyph of a character in the basic table, one byte
/// of column bits per row; a function of the character alone.
pub uninterp spec fn glyph_rows(c: char) -> Seq<u8>;

/// Relies on font8x8's `BasicFonts::get`: a binary search in a fixed table
/// of the 128 basic-latin glyphs, so the result depends on the character
/// alone, and is present exactly for characters below code point 128.
#[verifier::external_body]
fn basic_glyph(c: char) -> (r: Option<[u8; 8]>)
    ensures
        r is Some <==> (c as u32) < 128,
        r matches Some(g) ==> g@ == glyph_rows(c) && g@.len() == 8,
{
    font8x8::UnicodeFonts::get(&font8x8::BASIC_FONTS, c)
}

/// Whether every changed pixel of the rectangle was painted `color`, and
/// nothing outside the buffer was touched.
pub open spec fn only_painted(before: Seq<u32>, after: Seq<u32>, color: u32) -> bool {
    after.len() == before.len() && (forall|i: int|
        0 <= i < after.len() ==> after[i] == before[i] || after[i] == color)
}

/// Draws the line from `(x1, y1)` to `(x2, y2)` into the buffer by
/// integer error stepping, painting only pixels inside the
/// `width` by `height` rectangle.
pub fn draw_line(buffer: &mut Vec<u32>, x1: i32, y1: i32, x2: i32, y2: i32, color: u32,
    width: usize, height: usize)
    requires
        old(buffer).len() == width * height,
        abs_i(x1 as int) <= 0x2000_0000,
        abs_i(y1 as int) <= 0x2000_0000,
        abs_i(x2 as int) <= 0x2000_0000,
        abs_i(y2 as int) <= 0x2000_0000,
    ensures
        only_painted(old(buffer)@, final(buffer)@, color),
{
    let dx: i64 = if x2 > x1 {
        (x2 as i64) - (x1 as i64)
    } else {
        (x1 as i64) - (x2 as i64)
    };
    let dy: i64 = if y2 > y1 {
        (y2 as i64) - (y1 as i64)
    } else {
        (y1 as i64) - (y2 as i64)
    };
    let sx: i64 = if x1 < x2 {
        1
    } else {
        -1
    };
    let sy: i64 = if y1 < y2 {
        1
    } else {
        -1
    };
    let mut err: i128 = (dx as i128) - (dy as i128);
    let mut x: i64 = x1 as i64;
    let mut y: i64 = y1 as i64;
    let fuel: usize = (dx as usize) + (dy as usize) + 1;
    let mut steps: usize = 0;
    let mut reached: bool = false;
    while !reached && steps < fuel
        invariant
            buffer.len() == width * height,
            only_painted(old(buffer)@, buffer@, color),
            steps <= fuel,
            fuel <= 0x8000_0000_1,
            dx >= 0,
            dy >= 0,
            dx <= 0x4000_0000,
            dy <= 0x4000_0000,
            abs_i(x as int) <= 0x2000_0000 + steps + 1,
            abs_i(y as int) <= 0x2000_0000 + steps + 1,
            abs_i(err as int) <= (steps + 1) * 0x8000_0000,
            sx == 1 || sx == -1,
            sy == 1 || sy == -1,
        decreases (if reached {
            0int
        } else {
            1int
        }), fuel - steps,
    {
        if x >= 0 && x < (width as i64) && y >= 0 && y < (height as i64) {
            let ux: usize = x as usize;
            let uy: usize = y as usize;
            proof {
                assert((uy as int) * (width as int) + (ux as int) < (width as int) * (height
                    as int)) by (nonlinear_arith)
                    requires
                        0 <= (uy as int) < (height as int),
                        0 <= (ux as int) < (width as int),
                ;
            }
            let idx: usize = uy * width + ux;
            buffer.set(idx, color);
        }
        if x == (x2 as i64) && y == (y2 as i64) {
            reached = true;
        } else {
            proof {
                assert(abs_i(err as int) + 0x8000_0000 <= (steps + 2) * 0x8000_0000);
            }
            let e2: i128 = 2 * err;
            if e2 > -(dy as i128) {
                err = err - (dy as i128);
                x = x + sx;
            }
            if e2 < (dx as i128) {
                err = err + (dx as i128);
                y = y + sy;
            }
            steps = steps + 1;
        }
    }
}

/// Draws the 8x8 glyph of `c` with its top-left corner at `(x, y)`; a
/// character without a glyph in the basic table draws nothing.
pub fn draw_char(buffer: &mut Vec<u32>, c: char, x: usize, y: usize, color: u32, width: usize,
    height: usize)
    requires
        old(buffer).len() == width * height,
        x + 8 <= usize::MAX,
        y + 8 <= usize::MAX,
    ensures
        only_painted(old(buffer)@, final(buffer)@, color),
{
    let font = match basic_glyph(c) {
        Some(g) => g,
        Option::None => {
            return ;
        },
    };
    let mut row: usize = 0;
    while row < 8
        invariant
            0 <= row <= 8,
            buffer.len() == width * height,
            only_painted(old(buffer)@, buffer@, color),
            x + 8 <= usize::MAX,
            y + 8 <= usize::MAX,
        decreases 8 - row,
    {
        let byte: u8 = font[row];
        let mut col: usize = 0;
        while col < 8
            invariant
                0 <= col <= 8,
                0 <= row < 8,
                buffer.len() == width * height,
                only_painted(old(buffer)@, buffer@, color),
                x + 8 <= usize::MAX,
                y + 8 <= usize::MAX,
            decreases 8 - col,
        {
            if (byte >> (col as u8)) & 1 != 0 {
                let px: usize = x + col;
                let py: usize = y + row;
                if px < width && py < height {
                    proof {
                        assert((py as int) * (width as int) + (px as int) < (width as int) * (
                        height as int)) by (nonlinear_arith)
                            requires
                                0 <= (py as int) < (height as int),
                                0 <= (px as int) < (width as int),
                        ;
                    }
                    let idx: usize = py * width + px;
                    buffer.set(idx, color);
                }
            }
            col = col + 1;
        }
        row = row + 1;
    }
}

/// Draws `text` left to right from `(x, y)`, eight pixels per character.
pub fn draw_text(buffer: &mut Vec<u32>, text: &str, x: usize, y: usize, color: u32, width: usize,
    height: usize)
    requires
        old(buffer).len() == width * height,
        x + 8 * (text@.len() + 1) <= usize::MAX,
        y + 8 <= usize::MAX,
    ensures
        only_painted(old(buffer)@, final(buffer)@, color),
{
    let n = text.unicode_len();
    let mut i: usize = 0;
    while i < n
        invariant
            0 <= i <= n,
            n == text@.len(),
            buffer.len() == width * height,
            only_painted(old(buffer)@, buffer@, color),
            x + 8 * (n + 1) <= usize::MAX,
            y + 8 <= usize::MAX,
        decreases n - i,
    {
        let c = text.get_char(i);
        proof {
            assert(x + 8 * i + 8 <= x + 8 * (n + 1)) by (nonlinear_arith)
                requires
                    0 <= i < n,
            ;
        }
        let cx: usize = x + i * 8;
        draw_char(buffer, c, cx, y, color, width, height);
        i = i + 1;
    }
}

} // verus!
