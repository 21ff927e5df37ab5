//! The monochrome 64x32 pixel grid and the XOR sprite-drawing rules.
//!
//! A sprite row is one byte, most-significant bit drawn leftmost. Each set
//! bit toggles the target pixel; toggling a lit pixel records a collision.
//! Drawing a row stops once the cursor reaches the last column, so sprites
//! are clipped, not wrapped, at the right edge.

use vstd::prelude::*;

verus! {

/// Row-major position of the pixel at column `x` of row `y`.
pub open spec fn pix_idx(x: int, y: int) -> int {
    y * 64 + x
}

/// The grid with every pixel off.
pub open spec fn blank_grid() -> Seq<bool> {
    Seq::new(2048, |j: int| false)
}

/// Whether bit `bit` of a sprite row byte is set, counting the
/// most-significant bit as bit 0 (it is drawn leftmost).
pub open spec fn sprite_bit(byte: u8, bit: int) -> bool
    recommends
        0 <= bit < 8,
{
    ((byte >> ((7 - bit) as u8)) & 1) == 1
}

/// The grid and collision flag after drawing bits `bit..8` of one sprite
/// row byte, with the cursor at column `x` of row `y`. Each set bit toggles
/// its pixel; the flag reports whether any toggled pixel was already lit.
/// The row is abandoned once the cursor reaches column 63.
pub open spec fn draw_bits(p: Seq<bool>, byte: u8, x: int, y: int, bit: int) -> (Seq<bool>, bool)
    decreases 8 - bit,
{
    if bit >= 8 || x >= 63 {
        (p, false)
    } else if sprite_bit(byte, bit) {
        let idx = pix_idx(x, y);
        let rest = draw_bits(p.update(idx, !p[idx]), byte, x + 1, y, bit + 1);
        (rest.0, p[idx] || rest.1)
    } else {
        draw_bits(p, byte, x + 1, y, bit + 1)
    }
}

/// The monochrome pixel grid, row-major, 64 columns by 32 rows.
pub struct Display {
    pub pixels: Vec<bool>,
}

impl View for Display {
    type V = Seq<bool>;

    open spec fn view(&self) -> Seq<bool> {
        self.pixels@
    }
}

impl Display {
    pub open spec fn wf(&self) -> bool {
        self@.len() == 2048
    }

    /// A grid with every pixel off.
    pub fn new() -> (r: Self)
        ensures
            r.wf(),
            r@ == blank_grid(),
    {
        let mut pixels: Vec<bool> = Vec::new();
        let mut j: usize = 0;
        while j < 2048
            invariant
                j <= 2048,
                pixels@.len() == j,
                forall|k: int| 0 <= k < j ==> !pixels@[k],
            decreases 2048 - j,
        {
            pixels.push(false);
            j += 1;
        }
        proof {
            assert(pixels@ =~= blank_grid());
        }
        Display { pixels }
    }

    pub fn set_pixel(&mut self, x: usize, y: usize, value: bool)
        requires
            old(self).wf(),
            x < 64,
            y < 32,
        ensures
            final(self).wf(),
            final(self)@ == old(self)@.update(pix_idx(x as int, y as int), value),
    {
        self.pixels.set(y * 64 + x, value);
    }

    pub fn get_pixel(&self, x: usize, y: usize) -> (r: bool)
        requires
            self.wf(),
            x < 64,
            y < 32,
        ensures
            r == self@[pix_idx(x as int, y as int)],
    {
        self.pixels[y * 64 + x]
    }

    /// Turn every pixel off.
    pub fn clear(&mut self)
        requires
            old(self).wf(),
        ensures
            final(self).wf(),
            final(self)@ == blank_grid(),
    {
        let mut j: usize = 0;
        while j < 2048
            invariant
                old(self).wf(),
                self.wf(),
                j <= 2048,
                forall|k: int| 0 <= k < j ==> !self@[k],
            decreases 2048 - j,
        {
            self.pixels.set(j, false);
            j += 1;
        }
        proof {
            assert(self@ =~= blank_grid());
        }
    }

    /// Draw bits `bit..8` of one sprite row byte starting at column `x` of
    /// row `y`, toggling pixels and reporting a collision, exactly as
    /// `draw_bits` describes.
    pub fn draw_row_bits(&mut self, byte: u8, x: u8, y: u8, bit: u8) -> (c: bool)
        requires
            old(self).wf(),
            x < 64,
            y < 31,
            bit <= 8,
        ensures
            final(self).wf(),
            final(self)@ == draw_bits(old(self)@, byte, x as int, y as int, bit as int).0,
            c == draw_bits(old(self)@, byte, x as int, y as int, bit as int).1,
        decreases 8int - bit,
    {
        if bit >= 8 || x >= 63 {
            return false;
        }
        if ((byte >> (7 - bit)) & 1) == 1 {
            let prev = self.get_pixel(x as usize, y as usize);
            self.set_pixel(x as usize, y as usize, !prev);
            let rest = self.draw_row_bits(byte, x + 1, y, bit + 1);
            prev || rest
        } else {
            self.draw_row_bits(byte, x + 1, y, bit + 1)
        }
    }
}

} // verus!
