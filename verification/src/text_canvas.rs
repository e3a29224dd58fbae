use vstd::prelude::*;

use crate::canvas::{lemma_paint_all_app, lemma_paint_all_push, paint_all, Canvas, PaintOp};
use crate::color::Color;
use crate::shape::iabs;

verus! {

/// The resolved glyph for one character of a scaled font: the glyph
/// identifier and its horizontal advance in pixels.
#[derive(Clone, Copy, PartialEq, Eq, Structural, Debug)]
pub struct GlyphMetric {
    pub ch: char,
    pub id: u32,
    pub advance: i32,
}

/// The kerning adjustment applied to the pen when `right` follows `left`.
#[derive(Clone, Copy, PartialEq, Eq, Structural, Debug)]
pub struct KernPair {
    pub left: u32,
    pub right: u32,
    pub adjust: i32,
}

/// One covered pixel of a rasterized glyph outline: local coordinates
/// within the glyph's bitmap and a coverage value (0 none, 255 full).
#[derive(Clone, Copy, PartialEq, Eq, Structural, Debug)]
pub struct CoverPixel {
    pub x: u32,
    pub y: u32,
    pub cover: u8,
}

/// A glyph's rasterized outline: the offset of its bitmap's top-left
/// corner from the glyph's pen position, and its covered pixels in the
/// order the rasterizer reports them.
#[derive(Debug)]
pub struct GlyphOutline {
    pub glyph: u32,
    pub dx: i32,
    pub dy: i32,
    pub pixels: Vec<CoverPixel>,
}

/// A font at a fixed pixel scale, materialized as plain data: its vertical
/// metrics and tables of per-character glyphs, kerning pairs, and glyph
/// outlines. An external font provider supplies these values; the text
/// pipeline only reads them.
#[derive(Debug)]
pub struct ScaledFont {
    pub ascent: i32,
    pub height: i32,
    pub line_gap: i32,
    pub glyphs: Vec<GlyphMetric>,
    pub kerning: Vec<KernPair>,
    pub outlines: Vec<GlyphOutline>,
}

/// A positioned glyph produced by layout: the glyph identifier and its pen
/// position.
#[derive(Clone, Copy, PartialEq, Eq, Structural, Debug)]
pub struct Glyph {
    pub id: u32,
    pub x: i64,
    pub y: i64,
}

/// A positioned glyph as specifications see it.
pub open spec fn glyph_view(g: Glyph) -> (u32, int, int) {
    (g.id, g.x as int, g.y as int)
}

/// Every metric of the font is small enough that layout arithmetic cannot
/// overflow: each value fits well within `-65536 ..= 65536`.
pub open spec fn font_wf(f: ScaledFont) -> bool {
    &&& iabs(f.ascent as int) <= 0x10000
    &&& iabs(f.height as int) <= 0x10000
    &&& iabs(f.line_gap as int) <= 0x10000
    &&& forall|i: int|
        0 <= i < f.glyphs@.len() ==> iabs(#[trigger] f.glyphs@[i].advance as int) <= 0x10000
    &&& forall|i: int|
        0 <= i < f.kerning@.len() ==> iabs(#[trigger] f.kerning@[i].adjust as int) <= 0x10000
}

/// The first glyph entry for character `c`, if any.
pub open spec fn find_glyph(glyphs: Seq<GlyphMetric>, c: char) -> Option<GlyphMetric>
    decreases glyphs.len(),
{
    if glyphs.len() <= 0 {
        None
    } else if glyphs[0].ch == c {
        Some(glyphs[0])
    } else {
        find_glyph(glyphs.drop_first(), c)
    }
}

/// The adjustment of the first kerning entry for the pair, or zero.
pub open spec fn find_kern(pairs: Seq<KernPair>, left: u32, right: u32) -> int
    decreases pairs.len(),
{
    if pairs.len() <= 0 {
        0
    } else if pairs[0].left == left && pairs[0].right == right {
        pairs[0].adjust as int
    } else {
        find_kern(pairs.drop_first(), left, right)
    }
}

/// The first outline entry for glyph `id`, if any.
pub open spec fn find_outline(outlines: Seq<GlyphOutline>, id: u32) -> Option<GlyphOutline>
    decreases outlines.len(),
{
    if outlines.len() <= 0 {
        None
    } else if outlines[0].glyph == id {
        Some(outlines[0])
    } else {
        find_outline(outlines.drop_first(), id)
    }
}

/// A control character: the Unicode control category, the code points
/// below U+0020 and U+007F through U+009F.
pub open spec fn is_control_char(c: char) -> bool {
    (c as int) < 0x20 || (0x7f <= c as int && c as int <= 0x9f)
}

/// A whitespace character: the Unicode white-space code points.
pub open spec fn is_whitespace_char(c: char) -> bool {
    ||| (0x9 <= c as int && c as int <= 0xd)
    ||| c as int == 0x20
    ||| c as int == 0x85
    ||| c as int == 0xa0
    ||| c as int == 0x1680
    ||| (0x2000 <= c as int && c as int <= 0x200a)
    ||| c as int == 0x2028
    ||| c as int == 0x2029
    ||| c as int == 0x202f
    ||| c as int == 0x205f
    ||| c as int == 0x3000
}

/// Tests for a control character (Unicode control category).
pub fn is_control(c: char) -> (r: bool)
    ensures
        r == is_control_char(c),
{
    let u = c as u32;
    u < 0x20 || (0x7f <= u && u <= 0x9f)
}

/// Tests for a whitespace character (Unicode white-space property).
pub fn is_whitespace(c: char) -> (r: bool)
    ensures
        r == is_whitespace_char(c),
{
    let u = c as u32;
    (0x9 <= u && u <= 0xd) || u == 0x20 || u == 0x85 || u == 0xa0 || u == 0x1680 || (0x2000 <= u
        && u <= 0x200a) || u == 0x2028 || u == 0x2029 || u == 0x202f || u == 0x205f || u == 0x3000
}

/// The vertical distance between lines: font height plus line gap.
pub open spec fn spec_line_advance(f: ScaledFont) -> int {
    f.height as int + f.line_gap as int
}

/// The glyphs laid out for `cs` from the caret `(caret_x, caret_y)`, with
/// `last` the previous glyph (for kerning). For each character in order:
/// control characters produce no glyph, a newline resetting the caret to
/// `pos_x`, advancing a line, and clearing the kerning memory; any other
/// character resolves to a glyph, is kerned against the previous glyph,
/// placed at the caret, and advances the caret — and when it is not
/// whitespace and the advanced caret passes `pos_x + max_width`, the glyph
/// itself moves to the start of the next line, where the caret rests with
/// the glyph's advance forgotten.
pub open spec fn layout_rec(
    font: ScaledFont,
    pos_x: int,
    max_width: int,
    cs: Seq<char>,
    caret_x: int,
    caret_y: int,
    last: Option<u32>,
) -> Seq<(u32, int, int)>
    decreases cs.len(),
{
    if cs.len() <= 0 {
        Seq::empty()
    } else {
        let c = cs[0];
        if is_control_char(c) {
            if c == '\n' {
                layout_rec(
                    font,
                    pos_x,
                    max_width,
                    cs.drop_first(),
                    pos_x,
                    caret_y + spec_line_advance(font),
                    None,
                )
            } else {
                layout_rec(font, pos_x, max_width, cs.drop_first(), caret_x, caret_y, last)
            }
        } else {
            let id = match find_glyph(font.glyphs@, c) {
                Some(m) => m.id,
                None => 0u32,
            };
            let adv = match find_glyph(font.glyphs@, c) {
                Some(m) => m.advance as int,
                None => 0int,
            };
            let kern = match last {
                Some(prev) => find_kern(font.kerning@, prev, id),
                None => 0int,
            };
            let gx = caret_x + kern;
            let after = gx + adv;
            if !is_whitespace_char(c) && after > pos_x + max_width {
                let ny = caret_y + spec_line_advance(font);
                seq![(id, pos_x, ny)] + layout_rec(
                    font,
                    pos_x,
                    max_width,
                    cs.drop_first(),
                    pos_x,
                    ny,
                    None,
                )
            } else {
                seq![(id, gx, caret_y)] + layout_rec(
                    font,
                    pos_x,
                    max_width,
                    cs.drop_first(),
                    after,
                    caret_y,
                    Some(id),
                )
            }
        }
    }
}

/// The glyphs laid out for `cs` in a paragraph starting at
/// `(pos_x, pos_y)` and wrapping at width `max_width`: the caret starts
/// one ascent below the start position, with no previous glyph.
pub open spec fn layout_spec(
    font: ScaledFont,
    pos_x: int,
    pos_y: int,
    max_width: int,
    cs: Seq<char>,
) -> Seq<(u32, int, int)> {
    layout_rec(font, pos_x, max_width, cs, pos_x, pos_y + font.ascent as int, None)
}

impl ScaledFont {
    /// Resolves a character to its glyph entry; `None` when the font has
    /// no entry for it.
    pub fn scaled_glyph(&self, c: char) -> (g: Option<GlyphMetric>)
        requires
            font_wf(*self),
        ensures
            g == find_glyph(self.glyphs@, c),
            g is Some ==> iabs(g->0.advance as int) <= 0x10000,
    {
        let n = self.glyphs.len();
        proof {
            assert(self.glyphs@.skip(0) =~= self.glyphs@);
        }
        let mut i: usize = 0;
        while i < n
            invariant
                n == self.glyphs@.len(),
                0 <= i <= n,
                font_wf(*self),
                find_glyph(self.glyphs@, c) == find_glyph(self.glyphs@.skip(i as int), c),
            decreases n - i,
        {
            proof {
                assert(self.glyphs@.skip(i as int)[0] == self.glyphs@[i as int]);
                assert(self.glyphs@.skip(i as int).drop_first() =~= self.glyphs@.skip(i as int + 1));
            }
            if self.glyphs[i].ch == c {
                return Some(self.glyphs[i]);
            }
            i = i + 1;
        }
        proof {
            assert(self.glyphs@.skip(n as int) =~= Seq::<GlyphMetric>::empty());
        }
        None
    }

    /// The kerning adjustment between two glyphs; zero when the font lists
    /// none.
    pub fn kern(&self, left: u32, right: u32) -> (k: i32)
        requires
            font_wf(*self),
        ensures
            k as int == find_kern(self.kerning@, left, right),
            iabs(k as int) <= 0x10000,
    {
        let n = self.kerning.len();
        proof {
            assert(self.kerning@.skip(0) =~= self.kerning@);
        }
        let mut i: usize = 0;
        while i < n
            invariant
                n == self.kerning@.len(),
                0 <= i <= n,
                font_wf(*self),
                find_kern(self.kerning@, left, right) == find_kern(
                    self.kerning@.skip(i as int),
                    left,
                    right,
                ),
            decreases n - i,
        {
            proof {
                assert(self.kerning@.skip(i as int)[0] == self.kerning@[i as int]);
                assert(self.kerning@.skip(i as int).drop_first() =~= self.kerning@.skip(
                    i as int + 1,
                ));
            }
            if self.kerning[i].left == left && self.kerning[i].right == right {
                return self.kerning[i].adjust;
            }
            i = i + 1;
        }
        proof {
            assert(self.kerning@.skip(n as int) =~= Seq::<KernPair>::empty());
        }
        0
    }

    /// The outline of a glyph; `None` when the glyph has none (whitespace).
    pub fn outline(&self, id: u32) -> (o: Option<&GlyphOutline>)
        ensures
            match o {
                Some(outline) => find_outline(self.outlines@, id) == Some(*outline),
                None => find_outline(self.outlines@, id) is None,
            },
    {
        let n = self.outlines.len();
        proof {
            assert(self.outlines@.skip(0) =~= self.outlines@);
        }
        let mut i: usize = 0;
        while i < n
            invariant
                n == self.outlines@.len(),
                0 <= i <= n,
                find_outline(self.outlines@, id) == find_outline(
                    self.outlines@.skip(i as int),
                    id,
                ),
            decreases n - i,
        {
            proof {
                assert(self.outlines@.skip(i as int)[0] == self.outlines@[i as int]);
                assert(self.outlines@.skip(i as int).drop_first() =~= self.outlines@.skip(
                    i as int + 1,
                ));
            }
            if self.outlines[i].glyph == id {
                return Some(&self.outlines[i]);
            }
            i = i + 1;
        }
        proof {
            assert(self.outlines@.skip(n as int) =~= Seq::<GlyphOutline>::empty());
        }
        None
    }
}

/// Lays out `text` as a paragraph starting at `(pos_x, pos_y)`, wrapping
/// at `max_width`, and appends the positioned glyphs to `target`. Control
/// characters are not laid out; a newline starts a new line; a
/// non-whitespace glyph whose advance passes the wrap width moves to the
/// start of the next line. Kerning never crosses a line break.
pub fn layout_paragraph(
    font: &ScaledFont,
    pos_x: i32,
    pos_y: i32,
    max_width: i32,
    text: &str,
    target: &mut Vec<Glyph>,
)
    requires
        font_wf(*font),
        text@.len() <= 0x1_0000_0000,
    ensures
        final(target)@.map_values(|g: Glyph| glyph_view(g)) == old(target)@.map_values(
            |g: Glyph| glyph_view(g),
        ) + layout_spec(*font, pos_x as int, pos_y as int, max_width as int, text@),
{
    let ghost full = layout_spec(*font, pos_x as int, pos_y as int, max_width as int, text@);
    let ghost done0 = old(target)@.map_values(|g: Glyph| glyph_view(g));
    let n = text.unicode_len();
    let v_adv: i64 = (font.height as i64) + (font.line_gap as i64);
    let mut caret_x: i64 = pos_x as i64;
    let mut caret_y: i64 = (pos_y as i64) + (font.ascent as i64);
    let mut last: Option<u32> = None;
    proof {
        assert(text@.skip(0) =~= text@);
    }
    let mut i: usize = 0;
    while i < n
        invariant
            n == text@.len(),
            n <= 0x1_0000_0000,
            0 <= i <= n,
            font_wf(*font),
            v_adv == spec_line_advance(*font),
            iabs(caret_x as int) <= 0x80000000 + (i as int) * 0x20000,
            iabs(caret_y as int) <= 0x80000000 + (i as int + 1) * 0x20000,
            done0 + full == target@.map_values(|g: Glyph| glyph_view(g)) + layout_rec(
                *font,
                pos_x as int,
                max_width as int,
                text@.skip(i as int),
                caret_x as int,
                caret_y as int,
                last,
            ),
        decreases n - i,
    {
        proof {
            assert(text@.skip(i as int)[0] == text@[i as int]);
            assert(text@.skip(i as int).drop_first() =~= text@.skip(i as int + 1));
        }
        let c = text.get_char(i);
        if is_control(c) {
            if c == '\n' {
                caret_x = pos_x as i64;
                caret_y = caret_y + v_adv;
                last = None;
            }
        } else {
            let metric = font.scaled_glyph(c);
            let id: u32 = match metric {
                Some(m) => m.id,
                None => 0,
            };
            let adv: i64 = match metric {
                Some(m) => m.advance as i64,
                None => 0,
            };
            let kern: i64 = match last {
                Some(prev) => font.kern(prev, id) as i64,
                None => 0,
            };
            let gx = caret_x + kern;
            let after = gx + adv;
            let mut gpos_x = gx;
            let mut gpos_y = caret_y;
            caret_x = after;
            last = Some(id);
            if !is_whitespace(c) && after > (pos_x as i64) + (max_width as i64) {
                caret_x = pos_x as i64;
                caret_y = gpos_y + v_adv;
                gpos_x = caret_x;
                gpos_y = caret_y;
                last = None;
            }
            let ghost before = target@.map_values(|g: Glyph| glyph_view(g));
            target.push(Glyph { id, x: gpos_x, y: gpos_y });
            proof {
                assert(target@.map_values(|g: Glyph| glyph_view(g)) =~= before.push(
                    (id, gpos_x as int, gpos_y as int),
                ));
                assert(before + (seq![(id, gpos_x as int, gpos_y as int)] + layout_rec(
                    *font,
                    pos_x as int,
                    max_width as int,
                    text@.skip(i as int + 1),
                    caret_x as int,
                    caret_y as int,
                    last,
                )) =~= before.push((id, gpos_x as int, gpos_y as int)) + layout_rec(
                    *font,
                    pos_x as int,
                    max_width as int,
                    text@.skip(i as int + 1),
                    caret_x as int,
                    caret_y as int,
                    last,
                ));
            }
        }
        i = i + 1;
    }
    proof {
        assert(text@.skip(n as int) =~= Seq::<char>::empty());
        assert(done0 + full =~= target@.map_values(|g: Glyph| glyph_view(g)));
    }
}

/// The compositing steps of one rasterized glyph outline whose bitmap's
/// top-left corner sits at `(bx, by)`: each covered pixel, in rasterizer
/// order, composites `color` with its alpha channel replaced by the
/// pixel's coverage value.
pub open spec fn cover_ops(ps: Seq<CoverPixel>, bx: int, by: int, color: Color) -> Seq<PaintOp>
    decreases ps.len(),
{
    if ps.len() <= 0 {
        Seq::empty()
    } else {
        cover_ops(ps.drop_last(), bx, by, color).push(
            (
                bx + ps.last().x as int,
                by + ps.last().y as int,
                Color { a: ps.last().cover, ..color },
            ),
        )
    }
}

/// The compositing steps of one positioned glyph: nothing when the font
/// has no outline for it (whitespace), else its coverage pixels placed at
/// the glyph position offset by the outline's bitmap offset.
pub open spec fn glyph_draw_ops(font: ScaledFont, g: (u32, int, int), color: Color) -> Seq<
    PaintOp,
> {
    match find_outline(font.outlines@, g.0) {
        None => Seq::empty(),
        Some(o) => cover_ops(o.pixels@, g.1 + o.dx as int, g.2 + o.dy as int, color),
    }
}

/// The compositing steps of a sequence of positioned glyphs, in order.
pub open spec fn glyphs_draw_ops(font: ScaledFont, gs: Seq<(u32, int, int)>, color: Color) -> Seq<
    PaintOp,
>
    decreases gs.len(),
{
    if gs.len() <= 0 {
        Seq::empty()
    } else {
        glyphs_draw_ops(font, gs.drop_last(), color) + glyph_draw_ops(font, gs.last(), color)
    }
}

/// Every compositing step of drawing `cs` at `(x, y)`: the paragraph is
/// laid out with a wrap width of 1000 pixels, then each positioned glyph's
/// outline is composited in order.
pub open spec fn text_ops(font: ScaledFont, x: int, y: int, cs: Seq<char>, color: Color) -> Seq<
    PaintOp,
> {
    glyphs_draw_ops(font, layout_spec(font, x, y, 1000, cs), color)
}

/// A canvas paired with a scaled font, able to draw text.
pub struct TextCanvas<'a, T> {
    pub canvas: T,
    pub font: &'a ScaledFont,
}

impl<'a, T> TextCanvas<'a, T> {
    /// Pairs a canvas with a font.
    pub fn new(canvas: T, font: &'a ScaledFont) -> (tc: TextCanvas<'a, T>)
        ensures
            tc.canvas == canvas,
            tc.font == font,
    {
        TextCanvas { canvas, font }
    }
}

impl<'a, T: Canvas> TextCanvas<'a, T> {
    /// Draws `text` starting at `(x, y)`: lays the paragraph out with a
    /// wrap width of 1000 pixels, then composites every covered pixel of
    /// every glyph outline onto the canvas, using `color` with its alpha
    /// channel replaced by the pixel's coverage.
    pub fn text(&mut self, x: i32, y: i32, text: &str, color: Color)
        requires
            T::view_wf(old(self).canvas@),
            font_wf(*old(self).font),
            text@.len() <= 0x1_0000_0000,
        ensures
            final(self).font == old(self).font,
            final(self).canvas@ == paint_all::<T>(
                old(self).canvas@,
                text_ops(*old(self).font, x as int, y as int, text@, color),
            ),
            T::view_wf(final(self).canvas@),
            T::view_width(final(self).canvas@) == T::view_width(old(self).canvas@),
            T::view_height(final(self).canvas@) == T::view_height(old(self).canvas@),
    {
        let font = self.font;
        let ghost v0 = self.canvas@;
        let mut glyphs: Vec<Glyph> = Vec::new();
        layout_paragraph(font, x, y, 1000, text, &mut glyphs);
        let ghost gseq = layout_spec(*font, x as int, y as int, 1000, text@);
        proof {
            assert(Seq::<Glyph>::empty().map_values(|g: Glyph| glyph_view(g)) + gseq =~= gseq);
            assert(glyphs@.map_values(|g: Glyph| glyph_view(g)) == gseq);
            assert(gseq.take(0) =~= Seq::<(u32, int, int)>::empty());
        }
        let m = glyphs.len();
        let mut gi: usize = 0;
        while gi < m
            invariant
                m == glyphs@.len(),
                0 <= gi <= m,
                glyphs@.map_values(|g: Glyph| glyph_view(g)) == gseq,
                font_wf(*font),
                self.font == old(self).font,
                font == self.font,
                self.canvas@ == paint_all::<T>(
                    v0,
                    glyphs_draw_ops(*font, gseq.take(gi as int), color),
                ),
                T::view_wf(self.canvas@),
                T::view_width(self.canvas@) == T::view_width(v0),
                T::view_height(self.canvas@) == T::view_height(v0),
            decreases m - gi,
        {
            let g = glyphs[gi];
            proof {
                assert(glyph_view(g) == gseq[gi as int]);
                assert(gseq.take(gi as int + 1).drop_last() =~= gseq.take(gi as int));
                assert(gseq.take(gi as int + 1).last() == gseq[gi as int]);
            }
            let ghost done = glyphs_draw_ops(*font, gseq.take(gi as int), color);
            let ghost gops = glyph_draw_ops(*font, gseq[gi as int], color);
            let ghost vg = self.canvas@;
            match font.outline(g.id) {
                None => {
                    proof {
                        assert(gops =~= Seq::<PaintOp>::empty());
                        assert(done + gops =~= done);
                        lemma_paint_all_app::<T>(v0, done, gops);
                    }
                },
                Some(o) => {
                    let ghost bx = gseq[gi as int].1 + o.dx as int;
                    let ghost by = gseq[gi as int].2 + o.dy as int;
                    proof {
                        assert(o.pixels@.take(0) =~= Seq::<CoverPixel>::empty());
                    }
                    let np = o.pixels.len();
                    let mut j: usize = 0;
                    while j < np
                        invariant
                            np == o.pixels@.len(),
                            0 <= j <= np,
                            0 <= gi < m,
                            m == glyphs@.len(),
                            glyph_view(g) == gseq[gi as int],
                            bx == gseq[gi as int].1 + o.dx as int,
                            by == gseq[gi as int].2 + o.dy as int,
                            self.font == old(self).font,
                            font == self.font,
                            self.canvas@ == paint_all::<T>(
                                vg,
                                cover_ops(o.pixels@.take(j as int), bx, by, color),
                            ),
                            T::view_wf(self.canvas@),
                            T::view_width(self.canvas@) == T::view_width(v0),
                            T::view_height(self.canvas@) == T::view_height(v0),
                        decreases np - j,
                    {
                        let p = o.pixels[j];
                        let mut c2 = color;
                        c2.set_a(p.cover);
                        let ax: i128 = (g.x as i128) + (o.dx as i128) + (p.x as i128);
                        let ay: i128 = (g.y as i128) + (o.dy as i128) + (p.y as i128);
                        if (i32::MIN as i128) <= ax && ax <= (i32::MAX as i128) && (i32::MIN
                            as i128) <= ay && ay <= (i32::MAX as i128) {
                            self.canvas.set(ax as i32, ay as i32, c2);
                        } else {
                            proof {
                                T::lemma_dims_fit(self.canvas@);
                                T::lemma_composite_out_of_bounds(
                                    self.canvas@,
                                    ax as int,
                                    ay as int,
                                    c2,
                                );
                            }
                        }
                        proof {
                            assert(o.pixels@.take(j as int + 1).drop_last() =~= o.pixels@.take(
                                j as int,
                            ));
                            assert(o.pixels@.take(j as int + 1).last() == o.pixels@[j as int]);
                            lemma_paint_all_push::<T>(
                                vg,
                                cover_ops(o.pixels@.take(j as int), bx, by, color),
                                (ax as int, ay as int, c2),
                            );
                        }
                        j = j + 1;
                    }
                    proof {
                        assert(o.pixels@.take(np as int) =~= o.pixels@);
                        assert(gops == cover_ops(o.pixels@, bx, by, color));
                        lemma_paint_all_app::<T>(v0, done, gops);
                    }
                },
            }
            gi = gi + 1;
        }
        proof {
            assert(gseq.take(m as int) =~= gseq);
        }
    }
}

/// Laying out two two-letter words separated by a newline, in a monospace
/// font (every glyph the same nonnegative advance, no kerning anywhere)
/// wide enough that neither word wraps, produces exactly four positioned
/// glyphs: the newline lays out none, each line starts at `pos_x`, the
/// second letter of each line sits one advance to the right, the first
/// line's glyphs sit one ascent below `pos_y`, and the second line's one
/// line advance lower still.
pub proof fn lemma_layout_two_lines(
    font: ScaledFont,
    pos_x: int,
    pos_y: int,
    max_width: int,
    ga: GlyphMetric,
    gb: GlyphMetric,
    gc: GlyphMetric,
    gd: GlyphMetric,
)
    requires
        find_glyph(font.glyphs@, 'a') == Some(ga),
        find_glyph(font.glyphs@, 'b') == Some(gb),
        find_glyph(font.glyphs@, 'c') == Some(gc),
        find_glyph(font.glyphs@, 'd') == Some(gd),
        ga.advance == gb.advance && gb.advance == gc.advance && gc.advance == gd.advance,
        ga.advance >= 0,
        forall|l: u32, r: u32| find_kern(font.kerning@, l, r) == 0,
        2 * ga.advance as int <= max_width,
    ensures
        ({
            let out = layout_spec(font, pos_x, pos_y, max_width, seq!['a', 'b', '\n', 'c', 'd']);
            let top = pos_y + font.ascent as int;
            let adv = ga.advance as int;
            &&& out.len() == 4
            &&& out[0] == (ga.id, pos_x, top)
            &&& out[1] == (gb.id, pos_x + adv, top)
            &&& out[2] == (gc.id, pos_x, top + spec_line_advance(font))
            &&& out[3] == (gd.id, pos_x + adv, top + spec_line_advance(font))
        }),
{
    let cs = seq!['a', 'b', '\n', 'c', 'd'];
    let top = pos_y + font.ascent as int;
    let adv = ga.advance as int;
    let la = spec_line_advance(font);

    assert(!is_control_char('a') && !is_whitespace_char('a'));
    assert(!is_control_char('b') && !is_whitespace_char('b'));
    assert(is_control_char('\n'));
    assert(!is_control_char('c') && !is_whitespace_char('c'));
    assert(!is_control_char('d') && !is_whitespace_char('d'));

    let cs1 = cs.drop_first();
    let cs2 = cs1.drop_first();
    let cs3 = cs2.drop_first();
    let cs4 = cs3.drop_first();
    let cs5 = cs4.drop_first();
    assert(cs1 =~= seq!['b', '\n', 'c', 'd']);
    assert(cs2 =~= seq!['\n', 'c', 'd']);
    assert(cs3 =~= seq!['c', 'd']);
    assert(cs4 =~= seq!['d']);
    assert(cs5 =~= Seq::<char>::empty());

    let s4 = layout_rec(font, pos_x, max_width, cs4, pos_x + adv, top + la, Some(gc.id));
    assert(cs4.len() == 1);
    assert(cs4[0] == 'd');
    assert(find_kern(font.kerning@, gc.id, gd.id) == 0);
    let tail4 = layout_rec(
        font,
        pos_x,
        max_width,
        cs4.drop_first(),
        pos_x + 2 * adv,
        top + la,
        Some(gd.id),
    );
    assert(tail4 =~= Seq::<(u32, int, int)>::empty());
    assert(!(pos_x + adv + adv > pos_x + max_width));
    assert(s4 == seq![(gd.id, pos_x + adv, top + la)] + tail4);
    assert(s4 =~= seq![(gd.id, pos_x + adv, top + la)]);
    let s3 = layout_rec(font, pos_x, max_width, cs3, pos_x, top + la, None);
    assert(s3 =~= seq![(gc.id, pos_x, top + la)] + s4);
    let s2 = layout_rec(font, pos_x, max_width, cs2, pos_x + 2 * adv, top, Some(gb.id));
    assert(s2 =~= s3);
    let s1 = layout_rec(font, pos_x, max_width, cs1, pos_x + adv, top, Some(ga.id));
    assert(s1 =~= seq![(gb.id, pos_x + adv, top)] + s2);
    let s0 = layout_rec(font, pos_x, max_width, cs, pos_x, top, None);
    assert(s0 =~= seq![(ga.id, pos_x, top)] + s1);
    assert(layout_spec(font, pos_x, pos_y, max_width, cs) == s0);
    assert(s0 =~= seq![
        (ga.id, pos_x, top),
        (gb.id, pos_x + adv, top),
        (gc.id, pos_x, top + la),
        (gd.id, pos_x + adv, top + la),
    ]);
}

} // verus!
