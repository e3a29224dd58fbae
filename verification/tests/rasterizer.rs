use cubism::{
    clear_by_set, layout_paragraph, Blit, BlitSampler, Canvas, Color, Glyph, GlyphMetric,
    GlyphOutline, KernPair, PixelBuffer, ScaledFont, Shape, TextCanvas,
};
use cubism::CoverPixel;

fn blank(width: i32, height: usize) -> PixelBuffer {
    PixelBuffer::new(width, vec![0u8; (width as usize) * height * 4])
}

fn pixel(pb: &PixelBuffer, x: usize, y: usize) -> [u8; 4] {
    let i = (y * (pb.width as usize) + x) * 4;
    [pb.pixels[i], pb.pixels[i + 1], pb.pixels[i + 2], pb.pixels[i + 3]]
}

#[test]
fn set_opaque_reads_back_exactly() {
    let mut pb = blank(2, 2);
    let c = Color::rgba_u8(17, 130, 200, 255);
    pb.set(1, 0, c);
    assert_eq!(pixel(&pb, 1, 0), [17, 130, 200, 255]);
    assert_eq!(pixel(&pb, 0, 0), [0, 0, 0, 0]);
    assert_eq!(pixel(&pb, 0, 1), [0, 0, 0, 0]);
    assert_eq!(pixel(&pb, 1, 1), [0, 0, 0, 0]);
}

#[test]
fn set_transparent_changes_nothing() {
    let mut pb = PixelBuffer::new(1, vec![10, 20, 30, 40]);
    pb.set(0, 0, Color::rgba_u8(200, 200, 200, 0));
    pb.set(0, 0, Color::rgba_u8(1, 2, 3, 0));
    assert_eq!(pb.pixels, vec![10, 20, 30, 40]);
}

#[test]
fn set_half_alpha_accumulates_and_saturates() {
    // Starting from (0,0,0,0), compositing (255,0,0,128) twice:
    // first:  r = (255*128 + 0*127) / 255 = 128, a = 0 + 128 = 128
    // second: r = (255*128 + 128*127) / 255 = 191, a = 128 + 128 -> 255
    let mut pb = blank(1, 1);
    let c = Color::rgba_u8(255, 0, 0, 128);
    pb.set(0, 0, c);
    assert_eq!(pb.pixels, vec![128, 0, 0, 128]);
    pb.set(0, 0, c);
    assert_eq!(pb.pixels, vec![191, 0, 0, 255]);
}

#[test]
fn set_out_of_bounds_is_a_noop() {
    let mut pb = PixelBuffer::new(2, vec![9u8; 16]);
    let c = Color::rgba_u8(255, 255, 255, 255);
    pb.set(-1, 0, c);
    pb.set(0, -1, c);
    pb.set(2, 0, c);
    pb.set(0, 2, c);
    assert_eq!(pb.pixels, vec![9u8; 16]);
}

#[test]
fn size_derives_height_by_flooring() {
    let pb = PixelBuffer::new(2, vec![0u8; 16]);
    assert_eq!(pb.size(), (2, 2));
    // An inconsistent buffer reports a truncated height.
    let pb2 = PixelBuffer::new(2, vec![0u8; 20]);
    assert_eq!(pb2.size(), (2, 2));
}

#[test]
fn clear_overwrites_whole_chunks_directly() {
    let mut pb = PixelBuffer::new(1, vec![1, 2, 3, 4, 5, 6, 7, 8, 9]);
    pb.clear(Color::rgba_u8(10, 20, 30, 40));
    // Two complete chunks are replaced; the trailing byte is untouched.
    assert_eq!(pb.pixels, vec![10, 20, 30, 40, 10, 20, 30, 40, 9]);
}

#[test]
fn clear_by_set_composites_instead_of_overwriting() {
    let mut pb = PixelBuffer::new(1, vec![100, 100, 100, 255]);
    // Direct clear replaces; compositing clear blends.
    clear_by_set(&mut pb, Color::rgba_u8(255, 255, 255, 0));
    assert_eq!(pb.pixels, vec![100, 100, 100, 255]);
    pb.clear(Color::rgba_u8(255, 255, 255, 0));
    assert_eq!(pb.pixels, vec![255, 255, 255, 0]);
}

#[test]
fn rect_single_pixel() {
    let mut pb = blank(3, 3);
    let shape = Shape::new()
        .fill_color(Color::rgba_u8(1, 2, 3, 255))
        .outline_color(Color::rgba_u8(9, 8, 7, 255));
    shape.rect(&mut pb, 1, 1, 1, 1);
    for x in 0..3 {
        for y in 0..3 {
            if (x, y) == (1, 1) {
                // Fill first, then the opaque outline wins.
                assert_eq!(pixel(&pb, x, y), [9, 8, 7, 255]);
            } else {
                assert_eq!(pixel(&pb, x, y), [0, 0, 0, 0]);
            }
        }
    }
}

#[test]
fn rect_reversed_interval_draws_nothing() {
    let mut pb = blank(3, 3);
    let shape = Shape::new()
        .fill_color(Color::rgba_u8(255, 0, 0, 255))
        .outline_color(Color::rgba_u8(0, 255, 0, 255));
    shape.rect(&mut pb, 2, 0, 1, 2);
    assert_eq!(pb.pixels, vec![0u8; 36]);
    shape.rect(&mut pb, 0, 2, 2, 1);
    assert_eq!(pb.pixels, vec![0u8; 36]);
}

#[test]
fn rect_outline_wins_on_border() {
    let mut pb = blank(3, 3);
    let shape = Shape::new()
        .fill_color(Color::rgba_u8(10, 10, 10, 255))
        .outline_color(Color::rgba_u8(200, 0, 0, 255));
    shape.rect(&mut pb, 0, 0, 2, 2);
    // The border is outlined, the single interior pixel keeps the fill.
    assert_eq!(pixel(&pb, 1, 1), [10, 10, 10, 255]);
    for &(x, y) in &[(0, 0), (1, 0), (2, 0), (0, 1), (2, 1), (0, 2), (1, 2), (2, 2)] {
        assert_eq!(pixel(&pb, x, y), [200, 0, 0, 255]);
    }
}

#[test]
fn line_horizontal_plots_inclusive_endpoints() {
    let mut pb = blank(5, 2);
    let shape = Shape::new().outline_color(Color::rgba_u8(255, 255, 255, 255));
    shape.line(&mut pb, 0, 0, 4, 0);
    for x in 0..5 {
        assert_eq!(pixel(&pb, x, 0), [255, 255, 255, 255]);
        assert_eq!(pixel(&pb, x, 1), [0, 0, 0, 0]);
    }
}

#[test]
fn line_diagonal_plots_each_step_once() {
    let mut pb = blank(4, 4);
    let shape = Shape::new().outline_color(Color::rgba_u8(255, 255, 255, 255));
    shape.line(&mut pb, 3, 3, 0, 0);
    for i in 0..4 {
        assert_eq!(pixel(&pb, i, i), [255, 255, 255, 255]);
    }
    assert_eq!(pixel(&pb, 1, 0), [0, 0, 0, 0]);
    assert_eq!(pixel(&pb, 0, 1), [0, 0, 0, 0]);
}

#[test]
fn circle_transparent_outline_fills_interior_only() {
    let mut pb = blank(21, 21);
    let shape = Shape::new().fill_color(Color::rgba_u8(255, 0, 0, 255));
    // Shape::new starts with a fully transparent outline.
    shape.circle(&mut pb, 10, 10, 5);
    for x in 0i64..21 {
        for y in 0i64..21 {
            let d2 = (x - 10) * (x - 10) + (y - 10) * (y - 10);
            let expected = if d2 < 25 { [255, 0, 0, 255] } else { [0, 0, 0, 0] };
            assert_eq!(pixel(&pb, x as usize, y as usize), expected);
        }
    }
}

#[test]
fn circle_outline_ring_uses_fixed_tolerance() {
    let mut pb = blank(21, 21);
    let shape = Shape::new()
        .fill_color(Color::rgba_u8(0, 0, 0, 0))
        .outline_color(Color::rgba_u8(0, 255, 0, 255));
    shape.circle(&mut pb, 10, 10, 5);
    for x in 0i64..21 {
        for y in 0i64..21 {
            let d2 = (x - 10) * (x - 10) + (y - 10) * (y - 10);
            let ring = (d2 - 25).abs() <= 25;
            let expected = if ring { [0, 255, 0, 255] } else { [0, 0, 0, 0] };
            assert_eq!(pixel(&pb, x as usize, y as usize), expected);
        }
    }
}

#[test]
fn image_full_blit_reproduces_source() {
    let src: Vec<u8> = vec![
        255, 0, 0, 255, 255, 0, 0, 255, //
        255, 0, 0, 255, 255, 0, 0, 255,
    ];
    let mut pb = blank(2, 2);
    Blit::new().image_full(&src, 8).pos(0, 0).finish(&mut pb);
    assert_eq!(pb.pixels, src);
}

#[test]
fn blit_transparent_tint_leaves_destination_unchanged() {
    let src: Vec<u8> = vec![1, 2, 3, 255, 4, 5, 6, 255, 7, 8, 9, 255, 10, 11, 12, 255];
    let before: Vec<u8> = (0u8..16).collect();
    let mut pb = PixelBuffer::new(2, before.clone());
    Blit::new()
        .image_full(&src, 8)
        .color(Color::rgba_u8(255, 255, 255, 0))
        .finish(&mut pb);
    assert_eq!(pb.pixels, before);
}

#[test]
fn blit_own_contents_is_idempotent_for_opaque_pixels() {
    let bytes: Vec<u8> = vec![
        10, 20, 30, 255, 40, 50, 60, 255, //
        70, 80, 90, 255, 11, 12, 13, 255,
    ];
    let mut pb = PixelBuffer::new(2, bytes.clone());
    let copy = bytes.clone();
    Blit::new().image_full(&copy, 8).pos(0, 0).finish(&mut pb);
    assert_eq!(pb.pixels, bytes);
}

#[test]
fn blit_clip_copies_a_subrectangle() {
    // A 2x2 source; clip to its bottom-right pixel and blit at (0,0).
    let src: Vec<u8> = vec![
        1, 1, 1, 255, 2, 2, 2, 255, //
        3, 3, 3, 255, 4, 4, 4, 255,
    ];
    let mut pb = blank(3, 3);
    Blit::new().image_clip(&src, 8, 1, 1, 1, 1).pos(0, 0).finish(&mut pb);
    // The sample coordinate (1,1) is inside the 3x3 destination, so the
    // pixel lands at dst offset (0,0) + (0,0).
    assert_eq!(pixel(&pb, 0, 0), [4, 4, 4, 255]);
    assert_eq!(pixel(&pb, 1, 1), [0, 0, 0, 0]);
}

#[test]
fn blit_clips_against_destination_bounds_by_sample_coordinate() {
    // Sample coordinates beyond the destination size are skipped even
    // though the destination pixel itself would be in range.
    let src: Vec<u8> = vec![9, 9, 9, 255, 8, 8, 8, 255, 7, 7, 7, 255, 6, 6, 6, 255];
    let mut pb = blank(1, 1);
    Blit::new().image_full(&src, 8).pos(0, 0).finish(&mut pb);
    assert_eq!(pb.pixels, vec![9, 9, 9, 255]);
}

#[test]
fn sampler_out_of_range_reads_transparent() {
    let data: Vec<u8> = vec![5, 6, 7, 8];
    let sampler = BlitSampler::new(&data, 1);
    let c = sampler.sample(0, 0);
    assert_eq!(c, Color::rgba_u8(5, 6, 7, 8));
    assert_eq!(sampler.sample(1, 0), Color::rgba_u8(0, 0, 0, 0));
    assert_eq!(sampler.sample(-1, 0), Color::rgba_u8(0, 0, 0, 0));
    assert_eq!(sampler.sample(0, 5), Color::rgba_u8(0, 0, 0, 0));
}

#[test]
fn color_mul_is_channel_wise() {
    let a = Color::rgba_u8(128, 255, 0, 255);
    let b = Color::rgba_u8(255, 128, 255, 0);
    let m = a.mul(b);
    assert_eq!(m, Color::rgba_u8(128, 128, 0, 0));
    // White is the unit.
    assert_eq!(a.mul(Color::white()), a);
}

fn mono_font() -> ScaledFont {
    let mut glyphs = Vec::new();
    for (i, ch) in ['a', 'b', 'c', 'd', ' '].iter().enumerate() {
        glyphs.push(GlyphMetric { ch: *ch, id: (i + 1) as u32, advance: 8 });
    }
    ScaledFont {
        ascent: 10,
        height: 12,
        line_gap: 2,
        glyphs,
        kerning: Vec::new(),
        outlines: Vec::new(),
    }
}

#[test]
fn layout_two_lines_monospace() {
    let font = mono_font();
    let mut glyphs: Vec<Glyph> = Vec::new();
    layout_paragraph(&font, 5, 7, 1000, "ab\ncd", &mut glyphs);
    assert_eq!(glyphs.len(), 4);
    // Caret starts one ascent below the start position.
    assert_eq!((glyphs[0].id, glyphs[0].x, glyphs[0].y), (1, 5, 17));
    assert_eq!((glyphs[1].id, glyphs[1].x, glyphs[1].y), (2, 13, 17));
    // The second line sits one line advance (height + gap = 14) lower.
    assert_eq!((glyphs[2].id, glyphs[2].x, glyphs[2].y), (3, 5, 31));
    assert_eq!((glyphs[3].id, glyphs[3].x, glyphs[3].y), (4, 13, 31));
}

#[test]
fn layout_wraps_overflowing_glyph_to_next_line() {
    let font = mono_font();
    let mut glyphs: Vec<Glyph> = Vec::new();
    // Width 10 holds one 8-pixel glyph; the second overflows and wraps.
    layout_paragraph(&font, 0, 0, 10, "ab", &mut glyphs);
    assert_eq!(glyphs.len(), 2);
    assert_eq!((glyphs[0].x, glyphs[0].y), (0, 10));
    assert_eq!((glyphs[1].x, glyphs[1].y), (0, 24));
}

#[test]
fn layout_whitespace_never_wraps() {
    let font = mono_font();
    let mut glyphs: Vec<Glyph> = Vec::new();
    layout_paragraph(&font, 0, 0, 10, "a  ", &mut glyphs);
    assert_eq!(glyphs.len(), 3);
    // Both spaces stay on the first line even past the wrap width.
    assert_eq!((glyphs[1].x, glyphs[1].y), (8, 10));
    assert_eq!((glyphs[2].x, glyphs[2].y), (16, 10));
}

#[test]
fn layout_applies_kerning_within_a_line_only() {
    let mut font = mono_font();
    font.kerning.push(KernPair { left: 1, right: 2, adjust: -3 });
    let mut glyphs: Vec<Glyph> = Vec::new();
    layout_paragraph(&font, 0, 0, 1000, "ab\nb", &mut glyphs);
    // 'b' after 'a' is kerned left by 3.
    assert_eq!(glyphs[1].x, 5);
    // The 'b' on the new line has no previous glyph: no kerning.
    assert_eq!(glyphs[2].x, 0);
}

#[test]
fn layout_skips_control_characters() {
    let font = mono_font();
    let mut glyphs: Vec<Glyph> = Vec::new();
    layout_paragraph(&font, 0, 0, 1000, "a\rb", &mut glyphs);
    // The carriage return is control: not laid out, caret untouched.
    assert_eq!(glyphs.len(), 2);
    assert_eq!(glyphs[1].x, 8);
}

#[test]
fn text_composites_glyph_coverage() {
    let mut font = mono_font();
    font.outlines.push(GlyphOutline {
        glyph: 1,
        dx: 1,
        dy: -2,
        pixels: vec![
            CoverPixel { x: 0, y: 0, cover: 255 },
            CoverPixel { x: 1, y: 0, cover: 128 },
        ],
    });
    let pb = blank(8, 16);
    let mut tc = TextCanvas::new(pb, &font);
    tc.text(0, 0, "a", Color::rgba_u8(255, 0, 0, 255));
    // The glyph pen position is (0, ascent) = (0, 10); the bitmap corner
    // is offset by (1, -2); coverage becomes the composited alpha.
    assert_eq!(pixel(&tc.canvas, 1, 8), [255, 0, 0, 255]);
    assert_eq!(pixel(&tc.canvas, 2, 8), [128, 0, 0, 128]);
    assert_eq!(pixel(&tc.canvas, 0, 8), [0, 0, 0, 0]);
}

#[test]
fn text_skips_glyphs_without_outline() {
    let font = mono_font();
    let pb = blank(8, 16);
    let mut tc = TextCanvas::new(pb, &font);
    tc.text(0, 0, "a b", Color::rgba_u8(255, 255, 255, 255));
    // No glyph in this font has an outline: nothing is drawn.
    assert_eq!(tc.canvas.pixels, vec![0u8; 8 * 16 * 4]);
}

#[test]
fn shape_setters_update_colors() {
    let mut s = Shape::new();
    assert_eq!(s.fill, Color::white());
    assert_eq!(s.outline, Color::transparent());
    s.set_fill_color(Color::rgba_u8(1, 2, 3, 4));
    s.set_outline_color(Color::rgba_u8(5, 6, 7, 8));
    assert_eq!(s.fill, Color::rgba_u8(1, 2, 3, 4));
    assert_eq!(s.outline, Color::rgba_u8(5, 6, 7, 8));
}

#[test]
fn color_accessors() {
    let mut c = Color::rgba_u8(1, 2, 3, 4);
    assert_eq!(c.a(), 4);
    assert!(!c.is_transparent());
    c.set_a(0);
    assert!(c.is_transparent());
    assert_eq!(c, Color::rgba_u8(1, 2, 3, 0));
}

#[test]
fn line_steep_follows_bresenham_steps() {
    // dx = 2, dy = 4: the error term starts at -2 and the walk visits
    // (0,0), (0,1), (1,2), (1,3), (2,4).
    let mut pb = blank(3, 5);
    let shape = Shape::new().outline_color(Color::rgba_u8(255, 255, 255, 255));
    shape.line(&mut pb, 0, 0, 2, 4);
    let expected = [(0, 0), (0, 1), (1, 2), (1, 3), (2, 4)];
    for x in 0..3 {
        for y in 0..5 {
            let on = expected.contains(&(x, y));
            let want = if on { [255, 255, 255, 255] } else { [0, 0, 0, 0] };
            assert_eq!(pixel(&pb, x, y), want);
        }
    }
}

#[test]
fn blit_tint_multiplies_channels_and_alpha() {
    let src: Vec<u8> = vec![200, 100, 50, 255];
    let mut pb = blank(1, 1);
    Blit::new()
        .image_full(&src, 4)
        .color(Color::rgba_u8(255, 255, 255, 128))
        .finish(&mut pb);
    // Tinted source: (200,100,50,128); blended over black:
    // each channel c becomes c*128/255, alpha accumulates to 128.
    assert_eq!(pb.pixels, vec![100, 50, 25, 128]);
}
