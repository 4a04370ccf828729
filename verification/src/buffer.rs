//! The caller-owned RGBA pixel buffer and its byte-level addressing.
//!
//! A buffer is a row-major grid of pixels, four bytes (R, G, B, A) per pixel.
//! The codec mutates it in place when embedding and reads it when extracting.

use vstd::prelude::*;
use vstd::arithmetic::div_mod::{
    lemma_fundamental_div_mod, lemma_fundamental_div_mod_converse, lemma_div_pos_is_pos,
    lemma_mod_pos_bound, lemma_multiply_divide_lt,
};
use crate::geometry::CANVAS;

verus! {

/// Number of bytes of a 64x64 four-channel buffer.
pub const CANVAS_BYTES: usize = 16384;

/// A raster of RGBA pixels: `width * height` pixels in row-major order,
/// four bytes per pixel, one byte per channel.
pub struct PixelBuffer {
    pub data: Vec<u8>,
    pub width: u32,
    pub height: u32,
}

/// Index of the first byte (the R channel) of the pixel at coordinate `c`
/// on the fixed 64x64 canvas.
pub open spec fn byte_of_pix(c: (u32, u32)) -> int {
    4 * (c.1 * CANVAS + c.0)
}

/// The coordinate of the pixel that byte index `k` belongs to, on the fixed
/// 64x64 canvas.
pub open spec fn pix_of_byte(k: int) -> (u32, u32) {
    (((k / 4) % (CANVAS as int)) as u32, ((k / 4) / (CANVAS as int)) as u32)
}

/// Each channel byte of an in-canvas pixel is in bounds and maps back to
/// the pixel's coordinate.
pub proof fn lemma_pix_byte(c: (u32, u32), ch: int)
    requires
        c.0 < CANVAS,
        c.1 < CANVAS,
        0 <= ch < 4,
    ensures
        0 <= byte_of_pix(c) + ch < CANVAS_BYTES,
        pix_of_byte(byte_of_pix(c) + ch) == c,
        (byte_of_pix(c) + ch) % 4 == ch,
{
    let n = c.1 * CANVAS + c.0;
    let k = byte_of_pix(c) + ch;
    lemma_fundamental_div_mod_converse(k, 4, n, ch);
    lemma_fundamental_div_mod_converse(n, CANVAS as int, c.1 as int, c.0 as int);
}

/// Each byte index of the canvas belongs to an in-canvas pixel, at the
/// channel given by its remainder modulo four.
pub proof fn lemma_byte_pix(k: int)
    requires
        0 <= k < CANVAS_BYTES,
    ensures
        pix_of_byte(k).0 < CANVAS,
        pix_of_byte(k).1 < CANVAS,
        0 <= k % 4 < 4,
        byte_of_pix(pix_of_byte(k)) + k % 4 == k,
{
    let q = k / 4;
    lemma_mod_pos_bound(k, 4);
    lemma_div_pos_is_pos(k, 4);
    lemma_multiply_divide_lt(k, 4, 4096);
    lemma_mod_pos_bound(q, CANVAS as int);
    lemma_div_pos_is_pos(q, CANVAS as int);
    lemma_multiply_divide_lt(q, CANVAS as int, CANVAS as int);
    lemma_fundamental_div_mod(k, 4);
    lemma_fundamental_div_mod(q, CANVAS as int);
}

/// A well-formed 64x64 buffer holds exactly `CANVAS_BYTES` bytes.
pub proof fn lemma_canvas_len(b: PixelBuffer)
    requires
        b.wf(),
        b.is_canvas(),
    ensures
        b.data@.len() == CANVAS_BYTES,
{
    assert(b.width * b.height * 4 == 16384) by (nonlinear_arith)
        requires
            b.width == 64,
            b.height == 64,
    ;
}

impl PixelBuffer {
    /// The byte vector holds exactly four bytes for every pixel.
    pub open spec fn wf(self) -> bool {
        self.data@.len() == self.width * self.height * 4
    }

    /// Whether the buffer has the fixed 64x64 canvas size.
    pub open spec fn is_canvas(self) -> bool {
        self.width == CANVAS && self.height == CANVAS
    }

    /// Wrap a raw byte vector as a pixel buffer, refusing a vector whose
    /// length does not match the dimensions.
    pub fn new(width: u32, height: u32, data: Vec<u8>) -> (r: Option<PixelBuffer>)
        ensures
            match r {
                Some(b) => b.wf() && b.width == width && b.height == height && b.data@ == data@,
                None => data@.len() != width * height * 4,
            },
    {
        proof {
            assert((width as int) * (height as int) * 4 < 0x100000000000000000000000000000000)
                by (nonlinear_arith)
                requires
                    width <= 0xffffffffu32,
                    height <= 0xffffffffu32,
            ;
        }
        let expected: u128 = (width as u128) * (height as u128) * 4;
        if (data.len() as u128) == expected {
            Some(PixelBuffer { data, width, height })
        } else {
            None
        }
    }

    /// Overwrite the four channels of the pixel at `(x, y)`.
    pub fn put_pixel(&mut self, x: u32, y: u32, r: u8, g: u8, b: u8, a: u8)
        requires
            old(self).wf(),
            old(self).is_canvas(),
            x < CANVAS,
            y < CANVAS,
        ensures
            final(self).wf(),
            final(self).is_canvas(),
            final(self).width == old(self).width,
            final(self).height == old(self).height,
            final(self).data@ == old(self).data@.update(byte_of_pix((x, y)), r).update(
                byte_of_pix((x, y)) + 1,
                g,
            ).update(byte_of_pix((x, y)) + 2, b).update(byte_of_pix((x, y)) + 3, a),
    {
        proof {
            lemma_pix_byte((x, y), 3);
            lemma_canvas_len(*old(self));
        }
        let i = ((y as usize) * (CANVAS as usize) + (x as usize)) * 4;
        self.data[i] = r;
        self.data[i + 1] = g;
        self.data[i + 2] = b;
        self.data[i + 3] = a;
    }

    /// Read the four channels of the pixel at `(x, y)`.
    pub fn get_pixel(&self, x: u32, y: u32) -> (px: (u8, u8, u8, u8))
        requires
            self.wf(),
            self.is_canvas(),
            x < CANVAS,
            y < CANVAS,
        ensures
            px.0 == self.data@[byte_of_pix((x, y))],
            px.1 == self.data@[byte_of_pix((x, y)) + 1],
            px.2 == self.data@[byte_of_pix((x, y)) + 2],
            px.3 == self.data@[byte_of_pix((x, y)) + 3],
    {
        proof {
            lemma_pix_byte((x, y), 3);
            lemma_canvas_len(*self);
        }
        let i = ((y as usize) * (CANVAS as usize) + (x as usize)) * 4;
        (self.data[i], self.data[i + 1], self.data[i + 2], self.data[i + 3])
    }
}

} // verus!
