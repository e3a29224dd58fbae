use vstd::prelude::*;

use crate::canvas::{lemma_paint_all_app, lemma_paint_all_push, paint_all, Canvas, PaintOp};
use crate::color::Color;

verus! {

/// The color sampled from RGBA8 image bytes with `stride` pixels per row,
/// at pixel `(x, y)`: the four bytes at offset `4 * (y * stride + x)`, or
/// fully transparent black when that offset is negative or runs past the
/// end of the buffer.
pub open spec fn sample_spec(data: Seq<u8>, stride: int, x: int, y: int) -> Color {
    let l = y * stride + x;
    if l < 0 || 4 * l + 4 > data.len() {
        Color { r: 0u8, g: 0u8, b: 0u8, a: 0u8 }
    } else {
        Color { r: data[4 * l], g: data[4 * l + 1], b: data[4 * l + 2], a: data[4 * l + 3] }
    }
}

/// For a nonnegative linear pixel index, the four pixel bytes fit in the
/// buffer exactly when the index is below the number of whole pixels.
proof fn lemma_pixel_fits(l: int, len: int)
    requires
        0 <= l,
        0 <= len,
    ensures
        (l < len / 4) <==> (4 * l + 4 <= len),
{
    vstd::arithmetic::div_mod::lemma_fundamental_div_mod(len, 4);
    vstd::arithmetic::div_mod::lemma_mod_division_less_than_divisor(len, 4);
}

/// Reads single pixels out of a borrowed RGBA8 byte buffer with a fixed
/// row stride, counted in pixels. Out-of-range reads yield transparent
/// black, never a fault.
pub struct BlitSampler<'a> {
    pub img_data: &'a [u8],
    pub stride: i32,
}

impl<'a> BlitSampler<'a> {
    pub fn new(img_data: &'a [u8], stride: i32) -> (s: BlitSampler<'a>)
        ensures
            s.img_data@ == img_data@,
            s.stride == stride,
    {
        BlitSampler { img_data, stride }
    }

    /// Samples the pixel at `(x, y)` as a color; fully transparent black
    /// when the computed offset lies outside the buffer.
    pub fn sample(&self, x: i32, y: i32) -> (c: Color)
        ensures
            c == sample_spec(self.img_data@, self.stride as int, x as int, y as int),
    {
        proof {
            assert(-0x4000000000000000 <= (y as int) * (self.stride as int)
                <= 0x4000000000000000) by (nonlinear_arith)
                requires
                    -0x80000000 <= y as int <= 0x80000000,
                    -0x80000000 <= self.stride as int <= 0x80000000,
            ;
        }
        let l: i64 = (y as i64) * (self.stride as i64) + (x as i64);
        if l < 0 {
            return Color::rgba_u8(0, 0, 0, 0);
        }
        proof {
            lemma_pixel_fits(l as int, self.img_data@.len() as int);
        }
        let whole_pixels: u64 = (self.img_data.len() / 4) as u64;
        if (l as u64) >= whole_pixels {
            return Color::rgba_u8(0, 0, 0, 0);
        }
        let idx = (l as usize) * 4;
        Color::rgba_u8(
            self.img_data[idx],
            self.img_data[idx + 1],
            self.img_data[idx + 2],
            self.img_data[idx + 3],
        )
    }
}

/// Transient configuration for blitting a rectangular region of a source
/// RGBA8 image onto a [`Canvas`] with a positional offset and a
/// channel-multiplying tint. Configure with exactly one of
/// [`Blit::image_full`] or [`Blit::image_clip`], optionally [`Blit::color`]
/// and [`Blit::pos`], then draw with [`Blit::finish`].
pub struct Blit<'a> {
    pub img_data: Option<&'a [u8]>,
    pub img_stride: usize,
    pub src_x: i32,
    pub src_y: i32,
    pub src_w: i32,
    pub src_h: i32,
    pub dst_x: i32,
    pub dst_y: i32,
    pub mul_color: Color,
}

/// The source bytes a blit reads: the configured image, or nothing.
pub open spec fn blit_data(b: Blit<'_>) -> Seq<u8> {
    match b.img_data {
        Some(d) => d@,
        None => Seq::empty(),
    }
}

/// The compositing step of one blit offset `(x, y)`: when the sample
/// coordinate `(src_x + x, src_y + y)` lies inside the destination canvas
/// bounds `w` x `h`, the sampled color multiplied by the tint is composited
/// at `(dst_x + x, dst_y + y)`; otherwise the offset is skipped. The bounds
/// check deliberately tests the source sample coordinate against the
/// destination size.
pub open spec fn blit_cell_ops(
    data: Seq<u8>,
    stride: int,
    src_x: int,
    src_y: int,
    dst_x: int,
    dst_y: int,
    tint: Color,
    w: int,
    h: int,
    x: int,
    y: int,
) -> Seq<PaintOp> {
    let sx = src_x + x;
    let sy = src_y + y;
    if 0 <= sx < w && 0 <= sy < h {
        seq![(dst_x + x, dst_y + y, sample_spec(data, stride, sx, sy).spec_mul(tint))]
    } else {
        Seq::empty()
    }
}

/// The blit steps of one source column: offsets `(x, 0) .. (x, rows - 1)`.
pub open spec fn blit_col_ops(
    data: Seq<u8>,
    stride: int,
    src_x: int,
    src_y: int,
    dst_x: int,
    dst_y: int,
    tint: Color,
    w: int,
    h: int,
    x: int,
    rows: int,
) -> Seq<PaintOp>
    decreases rows,
{
    if rows <= 0 {
        Seq::empty()
    } else {
        blit_col_ops(data, stride, src_x, src_y, dst_x, dst_y, tint, w, h, x, rows - 1)
            + blit_cell_ops(data, stride, src_x, src_y, dst_x, dst_y, tint, w, h, x, rows - 1)
    }
}

/// Every compositing step of a blit of `cols` x `rows` source offsets onto
/// a destination of size `w` x `h`: column by column, top down.
pub open spec fn blit_ops(
    data: Seq<u8>,
    stride: int,
    src_x: int,
    src_y: int,
    dst_x: int,
    dst_y: int,
    tint: Color,
    w: int,
    h: int,
    cols: int,
    rows: int,
) -> Seq<PaintOp>
    decreases cols,
{
    if cols <= 0 {
        Seq::empty()
    } else {
        blit_ops(data, stride, src_x, src_y, dst_x, dst_y, tint, w, h, cols - 1, rows)
            + blit_col_ops(data, stride, src_x, src_y, dst_x, dst_y, tint, w, h, cols - 1, rows)
    }
}

impl<'a> Blit<'a> {
    /// A blit with no source, zero offsets and rectangle, and an opaque
    /// white (identity) tint.
    pub fn new() -> (b: Blit<'a>)
        ensures
            b.img_data is None,
            b.img_stride == 0,
            b.src_x == 0,
            b.src_y == 0,
            b.src_w == 0,
            b.src_h == 0,
            b.dst_x == 0,
            b.dst_y == 0,
            b.mul_color == (Color { r: 255u8, g: 255u8, b: 255u8, a: 255u8 }),
    {
        Blit {
            img_data: None,
            img_stride: 0,
            src_x: 0,
            src_y: 0,
            src_w: 0,
            src_h: 0,
            dst_x: 0,
            dst_y: 0,
            mul_color: Color::white(),
        }
    }

    /// Uses the whole buffer as the source: the source width is
    /// `stride / 4` pixels (stride is in bytes) and the source height is
    /// however many whole rows the buffer holds.
    pub fn image_full(self, img_data: &'a [u8], stride: usize) -> (b: Blit<'a>)
        requires
            1 <= stride <= i32::MAX,
            img_data@.len() <= i32::MAX,
        ensures
            b.img_data == Some(img_data),
            b.img_stride == stride,
            b.src_w as int == stride as int / 4,
            b.src_h as int == img_data@.len() as int / stride as int,
            b.src_x == self.src_x,
            b.src_y == self.src_y,
            b.dst_x == self.dst_x,
            b.dst_y == self.dst_y,
            b.mul_color == self.mul_color,
    {
        proof {
            vstd::arithmetic::div_mod::lemma_div_pos_is_pos(img_data@.len() as int, stride as int);
            vstd::arithmetic::div_mod::lemma_div_nonincreasing(img_data@.len() as int, stride as int);
        }
        let src_w = (stride / 4) as i32;
        let src_h = (img_data.len() / stride) as i32;
        Blit { img_data: Some(img_data), img_stride: stride, src_w, src_h, ..self }
    }

    /// Uses an explicit sub-rectangle of the buffer as the source.
    pub fn image_clip(
        self,
        img_data: &'a [u8],
        stride: usize,
        src_x: i32,
        src_y: i32,
        src_w: i32,
        src_h: i32,
    ) -> (b: Blit<'a>)
        requires
            stride <= i32::MAX,
        ensures
            b.img_data == Some(img_data),
            b.img_stride == stride,
            b.src_x == src_x,
            b.src_y == src_y,
            b.src_w == src_w,
            b.src_h == src_h,
            b.dst_x == self.dst_x,
            b.dst_y == self.dst_y,
            b.mul_color == self.mul_color,
    {
        Blit { img_data: Some(img_data), img_stride: stride, src_x, src_y, src_w, src_h, ..self }
    }

    /// Replaces the tint; every sampled pixel is channel-multiplied by it.
    pub fn color(self, mul_color: Color) -> (b: Blit<'a>)
        ensures
            b == (Blit { mul_color, ..self }),
    {
        Blit { mul_color, ..self }
    }

    /// Replaces the destination offset.
    pub fn pos(self, dst_x: i32, dst_y: i32) -> (b: Blit<'a>)
        ensures
            b == (Blit { dst_x, dst_y, ..self }),
    {
        Blit { dst_x, dst_y, ..self }
    }

    /// Performs the blit: for every offset of the source rectangle whose
    /// sample coordinate lies inside the destination canvas bounds, samples
    /// the source (transparent black past its end), multiplies by the tint,
    /// and composites at the destination offset.
    pub fn finish<C: Canvas>(self, canvas: &mut C)
        requires
            C::view_wf(old(canvas)@),
            self.img_stride <= i32::MAX,
        ensures
            final(canvas)@ == paint_all::<C>(
                old(canvas)@,
                blit_ops(
                    blit_data(self),
                    self.img_stride as int / 4,
                    self.src_x as int,
                    self.src_y as int,
                    self.dst_x as int,
                    self.dst_y as int,
                    self.mul_color,
                    C::view_width(old(canvas)@),
                    C::view_height(old(canvas)@),
                    self.src_w as int,
                    self.src_h as int,
                ),
            ),
            C::view_wf(final(canvas)@),
            C::view_width(final(canvas)@) == C::view_width(old(canvas)@),
            C::view_height(final(canvas)@) == C::view_height(old(canvas)@),
    {
        let ghost v0 = canvas@;
        let (w, h) = canvas.size();
        proof {
            C::lemma_dims_fit(v0);
        }
        let stride_px = (self.img_stride / 4) as i32;
        let ghost data = blit_data(self);
        let ghost stride = self.img_stride as int / 4;

        let mut x: i32 = 0;
        while x < self.src_w
            invariant
                C::view_wf(v0),
                0 <= x <= self.src_w || self.src_w < 0 && x == 0,
                w as int == C::view_width(v0),
                h as int == C::view_height(v0),
                0 <= h,
                stride_px as int == stride,
                data == blit_data(self),
                stride == self.img_stride as int / 4,
                canvas@ == paint_all::<C>(
                    v0,
                    blit_ops(
                        data,
                        stride,
                        self.src_x as int,
                        self.src_y as int,
                        self.dst_x as int,
                        self.dst_y as int,
                        self.mul_color,
                        w as int,
                        h as int,
                        x as int,
                        self.src_h as int,
                    ),
                ),
                C::view_wf(canvas@),
                C::view_width(canvas@) == C::view_width(v0),
                C::view_height(canvas@) == C::view_height(v0),
            decreases self.src_w - x,
        {
            let ghost vcol = canvas@;
            let mut y: i32 = 0;
            while y < self.src_h
                invariant
                    0 <= y <= self.src_h || self.src_h < 0 && y == 0,
                    0 <= x,
                    w as int == C::view_width(v0),
                    h as int == C::view_height(v0),
                    0 <= h,
                    stride_px as int == stride,
                    data == blit_data(self),
                    vcol == paint_all::<C>(
                        v0,
                        blit_ops(
                            data,
                            stride,
                            self.src_x as int,
                            self.src_y as int,
                            self.dst_x as int,
                            self.dst_y as int,
                            self.mul_color,
                            w as int,
                            h as int,
                            x as int,
                            self.src_h as int,
                        ),
                    ),
                    canvas@ == paint_all::<C>(
                        vcol,
                        blit_col_ops(
                            data,
                            stride,
                            self.src_x as int,
                            self.src_y as int,
                            self.dst_x as int,
                            self.dst_y as int,
                            self.mul_color,
                            w as int,
                            h as int,
                            x as int,
                            y as int,
                        ),
                    ),
                    C::view_wf(canvas@),
                    C::view_width(canvas@) == C::view_width(v0),
                    C::view_height(canvas@) == C::view_height(v0),
                decreases self.src_h - y,
            {
                let ghost col_prefix = blit_col_ops(
                    data,
                    stride,
                    self.src_x as int,
                    self.src_y as int,
                    self.dst_x as int,
                    self.dst_y as int,
                    self.mul_color,
                    w as int,
                    h as int,
                    x as int,
                    y as int,
                );
                let ghost cell = blit_cell_ops(
                    data,
                    stride,
                    self.src_x as int,
                    self.src_y as int,
                    self.dst_x as int,
                    self.dst_y as int,
                    self.mul_color,
                    w as int,
                    h as int,
                    x as int,
                    y as int,
                );
                let sxv: i64 = (self.src_x as i64) + (x as i64);
                let syv: i64 = (self.src_y as i64) + (y as i64);
                if 0 <= sxv && sxv < (w as i64) && 0 <= syv && syv < (h as i64) {
                    let sampled = match self.img_data {
                        Some(d) => BlitSampler::new(d, stride_px).sample(sxv as i32, syv as i32),
                        None => Color::rgba_u8(0, 0, 0, 0),
                    };
                    let tinted = sampled.mul(self.mul_color);
                    let dxv: i64 = (self.dst_x as i64) + (x as i64);
                    let dyv: i64 = (self.dst_y as i64) + (y as i64);
                    if (i32::MIN as i64) <= dxv && dxv <= (i32::MAX as i64) && (i32::MIN as i64)
                        <= dyv && dyv <= (i32::MAX as i64) {
                        canvas.set(dxv as i32, dyv as i32, tinted);
                    } else {
                        proof {
                            C::lemma_composite_out_of_bounds(
                                canvas@,
                                dxv as int,
                                dyv as int,
                                tinted,
                            );
                        }
                    }
                    proof {
                        assert(cell == seq![(dxv as int, dyv as int, tinted)]);
                        assert(col_prefix + cell =~= col_prefix.push((dxv as int, dyv as int, tinted)));
                        lemma_paint_all_push::<C>(vcol, col_prefix, (dxv as int, dyv as int, tinted));
                    }
                } else {
                    proof {
                        assert(cell =~= Seq::<PaintOp>::empty());
                        assert(col_prefix + cell =~= col_prefix);
                    }
                }
                y = y + 1;
            }
            proof {
                lemma_paint_all_app::<C>(
                    v0,
                    blit_ops(
                        data,
                        stride,
                        self.src_x as int,
                        self.src_y as int,
                        self.dst_x as int,
                        self.dst_y as int,
                        self.mul_color,
                        w as int,
                        h as int,
                        x as int,
                        self.src_h as int,
                    ),
                    blit_col_ops(
                        data,
                        stride,
                        self.src_x as int,
                        self.src_y as int,
                        self.dst_x as int,
                        self.dst_y as int,
                        self.mul_color,
                        w as int,
                        h as int,
                        x as int,
                        self.src_h as int,
                    ),
                );
            }
            x = x + 1;
        }
    }
}

/// Blitting with a fully transparent tint leaves a pixel buffer unchanged,
/// whatever the source holds: every composited color carries alpha zero,
/// and compositing alpha zero changes nothing. (One blit column.)
proof fn lemma_blit_col_transparent_tint(
    v: crate::pixel_buffer::PixelBufferView,
    data: Seq<u8>,
    stride: int,
    src_x: int,
    src_y: int,
    dst_x: int,
    dst_y: int,
    tint: Color,
    w: int,
    h: int,
    x: int,
    rows: int,
)
    requires
        crate::pixel_buffer::pb_wf(v),
        tint.a == 0,
    ensures
        paint_all::<crate::pixel_buffer::PixelBuffer>(
            v,
            blit_col_ops(data, stride, src_x, src_y, dst_x, dst_y, tint, w, h, x, rows),
        ) == v,
    decreases rows,
{
    if rows <= 0 {
    } else {
        let prefix = blit_col_ops(data, stride, src_x, src_y, dst_x, dst_y, tint, w, h, x, rows - 1);
        let cell = blit_cell_ops(data, stride, src_x, src_y, dst_x, dst_y, tint, w, h, x, rows - 1);
        lemma_blit_col_transparent_tint(
            v,
            data,
            stride,
            src_x,
            src_y,
            dst_x,
            dst_y,
            tint,
            w,
            h,
            x,
            rows - 1,
        );
        lemma_paint_all_app::<crate::pixel_buffer::PixelBuffer>(v, prefix, cell);
        assert(blit_col_ops(data, stride, src_x, src_y, dst_x, dst_y, tint, w, h, x, rows)
            == prefix + cell);
        if 0 <= src_x + x < w && 0 <= src_y + rows - 1 < h {
            let c = sample_spec(data, stride, src_x + x, src_y + rows - 1).spec_mul(tint);
            crate::color::lemma_mul_transparent(
                sample_spec(data, stride, src_x + x, src_y + rows - 1),
                tint,
            );
            crate::pixel_buffer::lemma_composite_transparent(v, dst_x + x, dst_y + rows - 1, c);
            assert(cell[0] == (dst_x + x, dst_y + rows - 1, c));
            assert(cell.drop_first() =~= Seq::<PaintOp>::empty());
            assert(paint_all::<crate::pixel_buffer::PixelBuffer>(v, cell)
                == paint_all::<crate::pixel_buffer::PixelBuffer>(
                crate::pixel_buffer::pb_composite(v, dst_x + x, dst_y + rows - 1, c),
                cell.drop_first(),
            ));
            assert(paint_all::<crate::pixel_buffer::PixelBuffer>(v, cell) == v);
        } else {
            assert(cell =~= Seq::<PaintOp>::empty());
            assert(paint_all::<crate::pixel_buffer::PixelBuffer>(v, cell) == v);
        }
        assert(paint_all::<crate::pixel_buffer::PixelBuffer>(v, prefix + cell) == v);
    }
}

/// Blitting with a fully transparent tint leaves a pixel buffer unchanged,
/// whatever the source holds.
pub proof fn lemma_blit_transparent_tint(
    v: crate::pixel_buffer::PixelBufferView,
    data: Seq<u8>,
    stride: int,
    src_x: int,
    src_y: int,
    dst_x: int,
    dst_y: int,
    tint: Color,
    w: int,
    h: int,
    cols: int,
    rows: int,
)
    requires
        crate::pixel_buffer::pb_wf(v),
        tint.a == 0,
    ensures
        paint_all::<crate::pixel_buffer::PixelBuffer>(
            v,
            blit_ops(data, stride, src_x, src_y, dst_x, dst_y, tint, w, h, cols, rows),
        ) == v,
    decreases cols,
{
    if cols <= 0 {
    } else {
        let prefix = blit_ops(data, stride, src_x, src_y, dst_x, dst_y, tint, w, h, cols - 1, rows);
        let col = blit_col_ops(data, stride, src_x, src_y, dst_x, dst_y, tint, w, h, cols - 1, rows);
        lemma_blit_transparent_tint(
            v,
            data,
            stride,
            src_x,
            src_y,
            dst_x,
            dst_y,
            tint,
            w,
            h,
            cols - 1,
            rows,
        );
        lemma_paint_all_app::<crate::pixel_buffer::PixelBuffer>(v, prefix, col);
        lemma_blit_col_transparent_tint(
            v,
            data,
            stride,
            src_x,
            src_y,
            dst_x,
            dst_y,
            tint,
            w,
            h,
            cols - 1,
            rows,
        );
    }
}

/// Compositing a buffer's own pixel back onto itself changes nothing when
/// that pixel is fully opaque: the "over" blend with alpha one returns the
/// color channels unchanged, and the alpha byte saturates back to 255.
proof fn lemma_composite_self_opaque(v: crate::pixel_buffer::PixelBufferView, x: int, y: int)
    requires
        crate::pixel_buffer::pb_wf(v),
        crate::pixel_buffer::pb_in_bounds(v, x, y),
        crate::pixel_buffer::pb_pixel(v, x, y).a == 255,
    ensures
        crate::pixel_buffer::pb_composite(v, x, y, crate::pixel_buffer::pb_pixel(v, x, y)) == v,
{
    crate::pixel_buffer::lemma_offset_in_range(v, x, y);
    let dst = crate::pixel_buffer::pb_pixel(v, x, y);
    let o = crate::pixel_buffer::pb_offset(v, x, y);
    assert(crate::pixel_buffer::blend_channel(dst.r as int, dst.r as int, 255) == dst.r as int)
        by {
        vstd::arithmetic::div_mod::lemma_div_by_multiple(dst.r as int, 255);
    }
    assert(crate::pixel_buffer::blend_channel(dst.g as int, dst.g as int, 255) == dst.g as int)
        by {
        vstd::arithmetic::div_mod::lemma_div_by_multiple(dst.g as int, 255);
    }
    assert(crate::pixel_buffer::blend_channel(dst.b as int, dst.b as int, 255) == dst.b as int)
        by {
        vstd::arithmetic::div_mod::lemma_div_by_multiple(dst.b as int, 255);
    }
    let nc = crate::pixel_buffer::spec_blend(dst, dst);
    assert(nc == dst);
    assert(v.1.update(o, nc.r).update(o + 1, nc.g).update(o + 2, nc.b).update(o + 3, nc.a) =~= v.1);
    assert(crate::pixel_buffer::pb_composite(v, x, y, dst) == v);
}

/// In a buffer whose rows exactly fill it, sampling with the row stride
/// reads back the stored pixel.
proof fn lemma_sample_own_pixel(v: crate::pixel_buffer::PixelBufferView, x: int, y: int)
    requires
        crate::pixel_buffer::pb_wf(v),
        crate::pixel_buffer::pb_in_bounds(v, x, y),
    ensures
        sample_spec(v.1, v.0, x, y) == crate::pixel_buffer::pb_pixel(v, x, y),
{
    crate::pixel_buffer::lemma_offset_in_range(v, x, y);
}

/// One column of the round trip: blitting a buffer's own opaque contents
/// back onto itself at the same offset with an opaque white tint changes
/// nothing.
proof fn lemma_blit_self_col(v: crate::pixel_buffer::PixelBufferView, x: int, rows: int)
    requires
        crate::pixel_buffer::pb_wf(v),
        forall|px: int, py: int|
            crate::pixel_buffer::pb_in_bounds(v, px, py) ==> (#[trigger] crate::pixel_buffer::pb_pixel(
                v,
                px,
                py,
            )).a == 255,
        rows <= crate::pixel_buffer::pb_height(v),
    ensures
        paint_all::<crate::pixel_buffer::PixelBuffer>(
            v,
            blit_col_ops(
                v.1,
                v.0,
                0,
                0,
                0,
                0,
                Color { r: 255u8, g: 255u8, b: 255u8, a: 255u8 },
                v.0,
                crate::pixel_buffer::pb_height(v),
                x,
                rows,
            ),
        ) == v,
    decreases rows,
{
    let white = Color { r: 255u8, g: 255u8, b: 255u8, a: 255u8 };
    let w = v.0;
    let h = crate::pixel_buffer::pb_height(v);
    if rows <= 0 {
    } else {
        let prefix = blit_col_ops(v.1, v.0, 0, 0, 0, 0, white, w, h, x, rows - 1);
        let cell = blit_cell_ops(v.1, v.0, 0, 0, 0, 0, white, w, h, x, rows - 1);
        lemma_blit_self_col(v, x, rows - 1);
        lemma_paint_all_app::<crate::pixel_buffer::PixelBuffer>(v, prefix, cell);
        assert(blit_col_ops(v.1, v.0, 0, 0, 0, 0, white, w, h, x, rows) == prefix + cell);
        if 0 <= x < w && 0 <= rows - 1 < h {
            lemma_sample_own_pixel(v, x, rows - 1);
            let px = crate::pixel_buffer::pb_pixel(v, x, rows - 1);
            crate::color::lemma_mul_white_identity(px);
            lemma_composite_self_opaque(v, x, rows - 1);
            assert(cell[0] == (x, rows - 1, px));
            assert(cell.drop_first() =~= Seq::<PaintOp>::empty());
            assert(paint_all::<crate::pixel_buffer::PixelBuffer>(v, cell)
                == paint_all::<crate::pixel_buffer::PixelBuffer>(
                crate::pixel_buffer::pb_composite(v, x, rows - 1, px),
                cell.drop_first(),
            ));
            assert(paint_all::<crate::pixel_buffer::PixelBuffer>(v, cell) == v);
        } else {
            assert(cell =~= Seq::<PaintOp>::empty());
            assert(paint_all::<crate::pixel_buffer::PixelBuffer>(v, cell) == v);
        }
        assert(paint_all::<crate::pixel_buffer::PixelBuffer>(v, prefix + cell) == v);
    }
}

/// Round trip: blitting a pixel buffer's own current contents back onto
/// itself at the same offset, with an opaque white tint, reproduces the
/// buffer exactly — provided every pixel is fully opaque, so that the
/// "over" blend runs with alpha one.
pub proof fn lemma_blit_self_roundtrip(v: crate::pixel_buffer::PixelBufferView, cols: int)
    requires
        crate::pixel_buffer::pb_wf(v),
        forall|px: int, py: int|
            crate::pixel_buffer::pb_in_bounds(v, px, py) ==> (#[trigger] crate::pixel_buffer::pb_pixel(
                v,
                px,
                py,
            )).a == 255,
        cols <= v.0,
    ensures
        paint_all::<crate::pixel_buffer::PixelBuffer>(
            v,
            blit_ops(
                v.1,
                v.0,
                0,
                0,
                0,
                0,
                Color { r: 255u8, g: 255u8, b: 255u8, a: 255u8 },
                v.0,
                crate::pixel_buffer::pb_height(v),
                cols,
                crate::pixel_buffer::pb_height(v),
            ),
        ) == v,
    decreases cols,
{
    let white = Color { r: 255u8, g: 255u8, b: 255u8, a: 255u8 };
    let w = v.0;
    let h = crate::pixel_buffer::pb_height(v);
    if cols <= 0 {
    } else {
        let prefix = blit_ops(v.1, v.0, 0, 0, 0, 0, white, w, h, cols - 1, h);
        let col = blit_col_ops(v.1, v.0, 0, 0, 0, 0, white, w, h, cols - 1, h);
        lemma_blit_self_roundtrip(v, cols - 1);
        lemma_paint_all_app::<crate::pixel_buffer::PixelBuffer>(v, prefix, col);
        lemma_blit_self_col(v, cols - 1, h);
    }
}

} // verus!
