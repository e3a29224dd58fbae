use vstd::prelude::*;

use crate::canvas::Canvas;
use crate::color::Color;

verus! {

/// A concrete [`Canvas`] backed by a flat byte buffer of RGBA8 pixels in
/// row-major order (stride = `width * 4` bytes).
///
/// The buffer is meant to hold `width * height * 4` bytes, but nothing
/// validates that: an inconsistent buffer silently reports a truncated
/// height (`size` divides, flooring) rather than failing.
pub struct PixelBuffer {
    pub width: i32,
    pub pixels: Vec<u8>,
}

/// The model of a pixel buffer: its width and its bytes.
pub type PixelBufferView = (int, Seq<u8>);

/// One color channel of the "over" blend: the incoming channel weighted by
/// the incoming alpha, plus the stored channel weighted by the remaining
/// alpha, renormalized by truncating division.
pub open spec fn blend_channel(src: int, dst: int, a: int) -> int {
    (src * a + dst * (255 - a)) / 255
}

/// The alpha channel of the blend: additive, not the "over" rule, and not
/// clamped mathematically — only the final byte store saturates at 255.
pub open spec fn blend_alpha(src: int, dst: int) -> int {
    if src + dst > 255 {
        255
    } else {
        src + dst
    }
}

/// The color stored after compositing `src` over the stored color `dst`.
pub open spec fn spec_blend(src: Color, dst: Color) -> Color {
    Color {
        r: blend_channel(src.r as int, dst.r as int, src.a as int) as u8,
        g: blend_channel(src.g as int, dst.g as int, src.a as int) as u8,
        b: blend_channel(src.b as int, dst.b as int, src.a as int) as u8,
        a: blend_alpha(src.a as int, dst.a as int) as u8,
    }
}

/// A pixel buffer model is well-formed when the width is positive and the
/// byte length fits the `i32` arithmetic that coordinates use.
pub open spec fn pb_wf(v: PixelBufferView) -> bool {
    &&& 1 <= v.0 <= i32::MAX
    &&& v.1.len() <= i32::MAX
}

/// Height in pixels: how many whole rows the buffer holds.
pub open spec fn pb_height(v: PixelBufferView) -> int {
    v.1.len() as int / (4 * v.0)
}

/// Byte offset of the pixel at `(x, y)`.
pub open spec fn pb_offset(v: PixelBufferView, x: int, y: int) -> int {
    4 * (y * v.0 + x)
}

pub open spec fn pb_in_bounds(v: PixelBufferView, x: int, y: int) -> bool {
    0 <= x < v.0 && 0 <= y < pb_height(v)
}

/// The stored color of the pixel at `(x, y)`.
pub open spec fn pb_pixel(v: PixelBufferView, x: int, y: int) -> Color {
    let o = pb_offset(v, x, y);
    Color { r: v.1[o], g: v.1[o + 1], b: v.1[o + 2], a: v.1[o + 3] }
}

/// The buffer after compositing `color` onto `(x, y)`: the four bytes of
/// that pixel hold the blend of `color` over the stored color; out of
/// bounds, the buffer is unchanged.
pub open spec fn pb_composite(v: PixelBufferView, x: int, y: int, color: Color) -> PixelBufferView {
    if pb_in_bounds(v, x, y) {
        let o = pb_offset(v, x, y);
        let nc = spec_blend(color, pb_pixel(v, x, y));
        (v.0, v.1.update(o, nc.r).update(o + 1, nc.g).update(o + 2, nc.b).update(o + 3, nc.a))
    } else {
        v
    }
}

/// What byte a cleared pixel stores at channel position `k` (0..4).
pub open spec fn channel_byte(color: Color, k: int) -> u8 {
    if k == 0 {
        color.r
    } else if k == 1 {
        color.g
    } else if k == 2 {
        color.b
    } else {
        color.a
    }
}

/// The buffer after a direct-write clear: every complete four-byte chunk is
/// overwritten with the channel bytes of `color` (no blending); a trailing
/// partial chunk is untouched.
pub open spec fn pb_clear(v: PixelBufferView, color: Color) -> PixelBufferView {
    (
        v.0,
        Seq::new(
            v.1.len(),
            |i: int|
                if i < 4 * (v.1.len() as int / 4) {
                    channel_byte(color, i % 4)
                } else {
                    v.1[i]
                },
        ),
    )
}

/// An in-bounds pixel's four bytes lie inside the buffer.
pub proof fn lemma_offset_in_range(v: PixelBufferView, x: int, y: int)
    requires
        v.0 >= 1,
        pb_in_bounds(v, x, y),
    ensures
        0 <= pb_offset(v, x, y),
        pb_offset(v, x, y) + 4 <= v.1.len(),
{
    let w = v.0;
    let len = v.1.len() as int;
    let h = len / (4 * w);
    vstd::arithmetic::div_mod::lemma_fundamental_div_mod(len, 4 * w);
    vstd::arithmetic::div_mod::lemma_mod_division_less_than_divisor(len, 4 * w);
    assert(4 * w * h <= len);
    assert(0 <= 4 * (y * w + x) && 4 * (y * w + x) + 4 <= 4 * w * h) by (nonlinear_arith)
        requires
            w >= 1,
            0 <= x < w,
            0 <= y,
            y <= h - 1,
    ;
}

proof fn lemma_blend_channel_bounds(src: int, dst: int, a: int)
    requires
        0 <= src <= 255,
        0 <= dst <= 255,
        0 <= a <= 255,
    ensures
        0 <= blend_channel(src, dst, a) <= 255,
{
    assert(0 <= src * a + dst * (255 - a) <= 255 * 255) by (nonlinear_arith)
        requires
            0 <= src <= 255,
            0 <= dst <= 255,
            0 <= a <= 255,
    ;
}

/// Compositing a fully opaque color stores exactly that color: the color
/// channels are copied and the alpha byte saturates at 255.
pub proof fn lemma_composite_opaque(v: PixelBufferView, x: int, y: int, color: Color)
    requires
        pb_wf(v),
        pb_in_bounds(v, x, y),
        color.a == 255,
    ensures
        pb_pixel(pb_composite(v, x, y, color), x, y) == color,
{
    lemma_offset_in_range(v, x, y);
    assert(blend_channel(color.r as int, pb_pixel(v, x, y).r as int, 255) == color.r as int) by {
        assert(color.r as int * 255 + pb_pixel(v, x, y).r as int * 0 == color.r as int * 255);
        vstd::arithmetic::div_mod::lemma_div_by_multiple(color.r as int, 255);
    }
    assert(blend_channel(color.g as int, pb_pixel(v, x, y).g as int, 255) == color.g as int) by {
        vstd::arithmetic::div_mod::lemma_div_by_multiple(color.g as int, 255);
    }
    assert(blend_channel(color.b as int, pb_pixel(v, x, y).b as int, 255) == color.b as int) by {
        vstd::arithmetic::div_mod::lemma_div_by_multiple(color.b as int, 255);
    }
}

/// Compositing a fully transparent color changes nothing: the color
/// channels blend to the stored values and the stored alpha gains zero.
pub proof fn lemma_composite_transparent(v: PixelBufferView, x: int, y: int, color: Color)
    requires
        pb_wf(v),
        color.a == 0,
    ensures
        pb_composite(v, x, y, color) == v,
{
    if pb_in_bounds(v, x, y) {
        lemma_offset_in_range(v, x, y);
        let o = pb_offset(v, x, y);
        let dst = pb_pixel(v, x, y);
        assert(blend_channel(color.r as int, dst.r as int, 0) == dst.r as int) by {
            assert(color.r as int * 0 + dst.r as int * 255 == dst.r as int * 255);
            vstd::arithmetic::div_mod::lemma_div_by_multiple(dst.r as int, 255);
        }
        assert(blend_channel(color.g as int, dst.g as int, 0) == dst.g as int) by {
            vstd::arithmetic::div_mod::lemma_div_by_multiple(dst.g as int, 255);
        }
        assert(blend_channel(color.b as int, dst.b as int, 0) == dst.b as int) by {
            vstd::arithmetic::div_mod::lemma_div_by_multiple(dst.b as int, 255);
        }
        let nc = spec_blend(color, dst);
        assert(nc == dst);
        assert(v.1.update(o, nc.r).update(o + 1, nc.g).update(o + 2, nc.b).update(o + 3, nc.a) =~= v.1);
        assert(pb_composite(v, x, y, color) == v);
    }
}


/// Two distinct in-bounds pixels have distinct linear indices.
proof fn lemma_index_injective(w: int, x: int, y: int, x2: int, y2: int)
    requires
        w >= 1,
        0 <= x < w,
        0 <= x2 < w,
        !(x == x2 && y == y2),
    ensures
        y * w + x != y2 * w + x2,
{
    assert(y * w + x != y2 * w + x2) by (nonlinear_arith)
        requires
            w >= 1,
            0 <= x < w,
            0 <= x2 < w,
            !(x == x2 && y == y2),
    ;
}

/// Compositing onto one pixel leaves every other pixel's stored color
/// unchanged.
pub proof fn lemma_composite_frame(
    v: PixelBufferView,
    x: int,
    y: int,
    color: Color,
    x2: int,
    y2: int,
)
    requires
        pb_wf(v),
        pb_in_bounds(v, x2, y2),
        !(x == x2 && y == y2),
    ensures
        pb_pixel(pb_composite(v, x, y, color), x2, y2) == pb_pixel(v, x2, y2),
{
    if pb_in_bounds(v, x, y) {
        lemma_offset_in_range(v, x, y);
        lemma_offset_in_range(v, x2, y2);
        lemma_index_injective(v.0, x, y, x2, y2);
        let l = y * v.0 + x;
        let l2 = y2 * v.0 + x2;
        assert(4 * l + 4 <= 4 * l2 || 4 * l2 + 4 <= 4 * l);
    }
}

impl PixelBuffer {
    /// Wraps a byte buffer as a drawable surface. Nothing is validated:
    /// the caller is responsible for `pixels.len() == width * height * 4`.
    /// Drawing operations require a well-formed buffer ([`pb_wf`]): a
    /// positive width and a length within `i32` range.
    pub fn new(width: i32, pixels: Vec<u8>) -> (pb: PixelBuffer)
        ensures
            pb.width == width,
            pb.pixels == pixels,
    {
        PixelBuffer { width, pixels }
    }
}

impl View for PixelBuffer {
    type V = PixelBufferView;

    open spec fn view(&self) -> PixelBufferView {
        (self.width as int, self.pixels@)
    }
}

impl Canvas for PixelBuffer {
    open spec fn view_wf(v: PixelBufferView) -> bool {
        pb_wf(v)
    }

    open spec fn view_width(v: PixelBufferView) -> int {
        v.0
    }

    open spec fn view_height(v: PixelBufferView) -> int {
        pb_height(v)
    }

    open spec fn composite_view(v: PixelBufferView, x: int, y: int, color: Color) -> PixelBufferView {
        pb_composite(v, x, y, color)
    }

    open spec fn clear_view(v: PixelBufferView, color: Color) -> PixelBufferView {
        pb_clear(v, color)
    }

    proof fn lemma_composite_out_of_bounds(v: PixelBufferView, x: int, y: int, color: Color) {
    }

    proof fn lemma_dims_fit(v: PixelBufferView) {
        let len = v.1.len() as int;
        vstd::arithmetic::div_mod::lemma_div_pos_is_pos(len, 4 * v.0);
        vstd::arithmetic::div_mod::lemma_fundamental_div_mod(len, 4 * v.0);
        vstd::arithmetic::div_mod::lemma_mod_division_less_than_divisor(len, 4 * v.0);
        let h = pb_height(v);
        assert(h <= len) by (nonlinear_arith)
            requires
                v.0 >= 1,
                h >= 0,
                4 * v.0 * h <= len,
        ;
    }

    /// Reports `(width, height)`; the height is derived from the buffer
    /// length by flooring division, so an inconsistent buffer yields a
    /// truncated height rather than an error.
    fn size(&self) -> (wh: (i32, i32)) {
        proof {
            Self::lemma_dims_fit(self@);
        }
        proof {
            vstd::arithmetic::div_mod::lemma_div_denominator(
                self.pixels@.len() as int,
                4,
                self.width as int,
            );
        }
        let len = self.pixels.len();
        let h = (len / 4) / (self.width as usize);
        (self.width, h as i32)
    }

    /// Composites `color` onto the pixel at `(x, y)` with the blend rule:
    /// `out = src * a + dst * (1 - a)` per color channel (in `0..=255`
    /// fixed-point form, truncating) and `out_a = a + dst_a` saturated at
    /// the byte store. Out-of-bounds calls are silently dropped.
    fn set(&mut self, x: i32, y: i32, color: Color) {
        if x < 0 || y < 0 || x >= self.width {
            return ;
        }
        proof {
            vstd::arithmetic::div_mod::lemma_div_denominator(
                self.pixels@.len() as int,
                4,
                self.width as int,
            );
        }
        let w = self.width as usize;
        let len = self.pixels.len();
        let height = (len / 4) / w;
        if (y as usize) >= height {
            return ;
        }
        proof {
            lemma_offset_in_range(old(self)@, x as int, y as int);
        }
        let idx = ((y as usize) * w + (x as usize)) * 4;
        let dr = self.pixels[idx];
        let dg = self.pixels[idx + 1];
        let db = self.pixels[idx + 2];
        let da = self.pixels[idx + 3];
        proof {
            lemma_blend_channel_bounds(color.r as int, dr as int, color.a as int);
            lemma_blend_channel_bounds(color.g as int, dg as int, color.a as int);
            lemma_blend_channel_bounds(color.b as int, db as int, color.a as int);
        }
        let sa = color.a as u32;
        let nr = ((color.r as u32) * sa + (dr as u32) * (255 - sa)) / 255;
        let ng = ((color.g as u32) * sa + (dg as u32) * (255 - sa)) / 255;
        let nb = ((color.b as u32) * sa + (db as u32) * (255 - sa)) / 255;
        let na_sum = sa + (da as u32);
        let na: u32 = if na_sum > 255 {
            255
        } else {
            na_sum
        };
        self.pixels[idx] = nr as u8;
        self.pixels[idx + 1] = ng as u8;
        self.pixels[idx + 2] = nb as u8;
        self.pixels[idx + 3] = na as u8;
        assert(self@.1 =~= pb_composite(old(self)@, x as int, y as int, color).1);
    }

    /// Overwrites every complete four-byte pixel chunk with the channel
    /// bytes of `color` directly — no blending. This is a deliberate
    /// semantic difference from the generic compositing clear (see
    /// [`crate::canvas::clear_by_set`]): it replaces pixel values.
    fn clear(&mut self, color: Color) {
        let len = self.pixels.len();
        let mut i: usize = 0;
        while i + 4 <= len
            invariant
                len == self.pixels@.len(),
                len == old(self).pixels@.len(),
                len <= i32::MAX,
                self.width == old(self).width,
                0 <= i <= len,
                i % 4 == 0,
                forall|j: int| 0 <= j < i ==> self.pixels@[j] == channel_byte(color, j % 4),
                forall|j: int| i <= j < len ==> self.pixels@[j] == old(self).pixels@[j],
            decreases len - i,
    {
            self.pixels[i] = color.r;
            self.pixels[i + 1] = color.g;
            self.pixels[i + 2] = color.b;
            self.pixels[i + 3] = color.a;
            proof {
                vstd::arithmetic::div_mod::lemma_add_mod_noop(i as int, 1, 4);
                vstd::arithmetic::div_mod::lemma_add_mod_noop(i as int, 2, 4);
                vstd::arithmetic::div_mod::lemma_add_mod_noop(i as int, 3, 4);
                vstd::arithmetic::div_mod::lemma_add_mod_noop(i as int, 4, 4);
                vstd::arithmetic::div_mod::lemma_small_mod(0nat, 4nat);
                vstd::arithmetic::div_mod::lemma_small_mod(1nat, 4nat);
                vstd::arithmetic::div_mod::lemma_small_mod(2nat, 4nat);
                vstd::arithmetic::div_mod::lemma_small_mod(3nat, 4nat);
                vstd::arithmetic::div_mod::lemma_mod_self_0(4);
            }
            i = i + 4;
        }
        proof {
            vstd::arithmetic::div_mod::lemma_fundamental_div_mod(len as int, 4);
            vstd::arithmetic::div_mod::lemma_mod_division_less_than_divisor(len as int, 4);
            vstd::arithmetic::div_mod::lemma_fundamental_div_mod(i as int, 4);
            vstd::arithmetic::div_mod::lemma_mod_division_less_than_divisor(i as int, 4);
            assert(i as int == 4 * (len as int / 4));
            assert(self@.1 =~= pb_clear(old(self)@, color).1);
        }
    }
}

} // verus!
