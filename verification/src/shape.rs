use vstd::prelude::*;

use crate::canvas::{
    col_ops, fill_grid, grid_ops, lemma_paint_all_app, lemma_paint_all_push, paint_all, Canvas,
    PaintOp,
};
use crate::color::{spec_is_transparent, Color};

verus! {

/// Transient configuration for shape drawing: a fill color and an outline
/// color. Defaults: opaque white fill, fully transparent outline. The
/// drawing calls borrow a [`Canvas`] for the duration of one operation.
pub struct Shape {
    pub fill: Color,
    pub outline: Color,
}

impl Shape {
    /// A shape drawer with the default colors.
    pub fn new() -> (s: Shape)
        ensures
            s.fill == (Color { r: 255u8, g: 255u8, b: 255u8, a: 255u8 }),
            s.outline == (Color { r: 0u8, g: 0u8, b: 0u8, a: 0u8 }),
    {
        Shape { fill: Color::white(), outline: Color::transparent() }
    }

    /// Replaces the fill color, fluent style.
    pub fn fill_color(self, color: Color) -> (s: Shape)
        ensures
            s.fill == color,
            s.outline == self.outline,
    {
        Shape { fill: color, ..self }
    }

    /// Replaces the fill color in place.
    pub fn set_fill_color(&mut self, color: Color)
        ensures
            final(self).fill == color,
            final(self).outline == old(self).outline,
    {
        self.fill = color;
    }

    /// Replaces the outline color, fluent style.
    pub fn outline_color(self, color: Color) -> (s: Shape)
        ensures
            s.outline == color,
            s.fill == self.fill,
    {
        Shape { outline: color, ..self }
    }

    /// Replaces the outline color in place.
    pub fn set_outline_color(&mut self, color: Color)
        ensures
            final(self).outline == color,
            final(self).fill == old(self).fill,
    {
        self.outline = color;
    }
}

/// The border steps along the horizontal edges: for each of the first `k`
/// columns starting at `x1`, the pixel on row `y1`, then the pixel on
/// row `y2`.
pub open spec fn hline_pair_ops(x1: int, y1: int, y2: int, k: int, color: Color) -> Seq<PaintOp>
    decreases k,
{
    if k <= 0 {
        Seq::empty()
    } else {
        hline_pair_ops(x1, y1, y2, k - 1, color) + seq![
            (x1 + k - 1, y1, color),
            (x1 + k - 1, y2, color),
        ]
    }
}

/// The border steps along the vertical edges: for each of the first `k`
/// rows starting at `y1`, the pixel in column `x1`, then the pixel in
/// column `x2`.
pub open spec fn vline_pair_ops(x1: int, x2: int, y1: int, k: int, color: Color) -> Seq<PaintOp>
    decreases k,
{
    if k <= 0 {
        Seq::empty()
    } else {
        vline_pair_ops(x1, x2, y1, k - 1, color) + seq![
            (x1, y1 + k - 1, color),
            (x2, y1 + k - 1, color),
        ]
    }
}

/// Every compositing step of `rect(x1, y1, x2, y2)` with the given colors:
/// the fill pass over the whole inclusive box, then — unless the outline
/// equals the fill or is fully transparent — the one-pixel border, first
/// along the rows `y1` and `y2`, then along the columns `x1` and `x2`.
/// A reversed interval (`x1 > x2` or `y1 > y2`) draws nothing.
pub open spec fn rect_ops(x1: int, y1: int, x2: int, y2: int, fill: Color, outline: Color) -> Seq<
    PaintOp,
> {
    if x1 > x2 || y1 > y2 {
        Seq::empty()
    } else {
        let fill_part = grid_ops(x1, y1, x2 - x1 + 1, y2 - y1 + 1, fill);
        if outline == fill || spec_is_transparent(outline) {
            fill_part
        } else {
            fill_part + hline_pair_ops(x1, y1, y2, x2 - x1 + 1, outline) + vline_pair_ops(
                x1,
                x2,
                y1,
                y2 - y1 + 1,
                outline,
            )
        }
    }
}

/// Appending a pair of steps paints them after all the others, in order.
proof fn lemma_paint_all_push_pair<C: Canvas>(v: C::V, ops: Seq<PaintOp>, op1: PaintOp, op2: PaintOp)
    ensures
        paint_all::<C>(v, ops + seq![op1, op2]) == C::composite_view(
            C::composite_view(paint_all::<C>(v, ops), op1.0, op1.1, op1.2),
            op2.0,
            op2.1,
            op2.2,
        ),
{
    assert(ops + seq![op1, op2] =~= ops.push(op1).push(op2));
    lemma_paint_all_push::<C>(v, ops.push(op1), op2);
    lemma_paint_all_push::<C>(v, ops, op1);
}

/// Absolute value.
pub open spec fn iabs(v: int) -> int {
    if v < 0 {
        -v
    } else {
        v
    }
}

/// A reachable state of the Bresenham walk toward `(x2, y2)`: the step
/// directions are unit steps, the remaining distances lie within the
/// initial distances `dx` and `dy`, and the error term carries its
/// defining relation to the remaining distances.
pub open spec fn bres_valid(
    x: int,
    y: int,
    x2: int,
    y2: int,
    dx: int,
    dy: int,
    sx: int,
    sy: int,
    err: int,
) -> bool {
    &&& (sx == 1 || sx == -1)
    &&& (sy == 1 || sy == -1)
    &&& dx >= 0
    &&& dy >= 0
    &&& 0 <= (x2 - x) * sx <= dx
    &&& 0 <= (y2 - y) * sy <= dy
    &&& err == dx - dy + (x2 - x) * sx * dy - (y2 - y) * sy * dx
}

/// Taking one Bresenham step from a valid, unfinished state reaches a valid
/// state and strictly shrinks the remaining distance.
proof fn lemma_bres_step(
    x: int,
    y: int,
    x2: int,
    y2: int,
    dx: int,
    dy: int,
    sx: int,
    sy: int,
    err: int,
)
    requires
        bres_valid(x, y, x2, y2, dx, dy, sx, sy, err),
        !(x == x2 && y == y2),
    ensures
        ({
            let e2 = 2 * err;
            let nx = if e2 > -dy { x + sx } else { x };
            let err1 = if e2 > -dy { err - dy } else { err };
            let ny = if e2 < dx { y + sy } else { y };
            let nerr = if e2 < dx { err1 + dx } else { err1 };
            &&& bres_valid(nx, ny, x2, y2, dx, dy, sx, sy, nerr)
            &&& (x2 - nx) * sx + (y2 - ny) * sy < (x2 - x) * sx + (y2 - y) * sy
        }),
{
    let rx = (x2 - x) * sx;
    let ry = (y2 - y) * sy;
    let e2 = 2 * err;
    assert(rx == 0 ==> x == x2) by (nonlinear_arith)
        requires
            rx == (x2 - x) * sx,
            sx == 1 || sx == -1,
    ;
    assert(ry == 0 ==> y == y2) by (nonlinear_arith)
        requires
            ry == (y2 - y) * sy,
            sy == 1 || sy == -1,
    ;
    assert(rx >= 1 || ry >= 1);
    if rx == 0 {
        assert(ry >= 1);
        assert(!(e2 > -dy)) by (nonlinear_arith)
            requires
                e2 == 2 * err,
                err == dx - dy + rx * dy - ry * dx,
                rx == 0,
                ry >= 1,
                dx >= 0,
                dy >= ry,
        ;
        assert(e2 < dx) by (nonlinear_arith)
            requires
                e2 == 2 * err,
                err == dx - dy + rx * dy - ry * dx,
                rx == 0,
                ry >= 1,
                dx >= 0,
                dy >= ry,
        ;
    }
    if ry == 0 {
        assert(rx >= 1);
        assert(e2 > -dy) by (nonlinear_arith)
            requires
                e2 == 2 * err,
                err == dx - dy + rx * dy - ry * dx,
                ry == 0,
                rx >= 1,
                dy >= 0,
                dx >= rx,
        ;
        assert(!(e2 < dx)) by (nonlinear_arith)
            requires
                e2 == 2 * err,
                err == dx - dy + rx * dy - ry * dx,
                ry == 0,
                rx >= 1,
                dy >= 0,
                dx >= rx,
        ;
    }
    assert(e2 > -dy || e2 < dx);
    let nx = if e2 > -dy { x + sx } else { x };
    let err1 = if e2 > -dy { err - dy } else { err };
    let ny = if e2 < dx { y + sy } else { y };
    let nerr = if e2 < dx { err1 + dx } else { err1 };
    let nrx = (x2 - nx) * sx;
    let nry = (y2 - ny) * sy;
    if e2 > -dy {
        assert(rx >= 1);
        assert(nrx == rx - 1) by (nonlinear_arith)
            requires
                nrx == (x2 - x - sx) * sx,
                rx == (x2 - x) * sx,
                sx == 1 || sx == -1,
        ;
    }
    if e2 < dx {
        assert(ry >= 1);
        assert(nry == ry - 1) by (nonlinear_arith)
            requires
                nry == (y2 - y - sy) * sy,
                ry == (y2 - y) * sy,
                sy == 1 || sy == -1,
        ;
    }
    assert(nerr == dx - dy + nrx * dy - nry * dx) by (nonlinear_arith)
        requires
            err == dx - dy + rx * dy - ry * dx,
            nrx == if e2 > -dy { rx - 1 } else { rx },
            nry == if e2 < dx { ry - 1 } else { ry },
            nerr == if e2 < dx {
                (if e2 > -dy { err - dy } else { err }) + dx
            } else {
                (if e2 > -dy { err - dy } else { err })
            },
    ;
}

/// Every compositing step of the Bresenham walk from `(x, y)` to
/// `(x2, y2)`: the current pixel, then — unless the walk has arrived — the
/// steps from the adjusted position. Both endpoints are plotted.
pub open spec fn bres_ops(
    x: int,
    y: int,
    x2: int,
    y2: int,
    dx: int,
    dy: int,
    sx: int,
    sy: int,
    err: int,
    color: Color,
) -> Seq<PaintOp>
    decreases (x2 - x) * sx + (y2 - y) * sy
        when bres_valid(x, y, x2, y2, dx, dy, sx, sy, err) via bres_ops_decreases
{
    if x == x2 && y == y2 {
        seq![(x, y, color)]
    } else {
        let e2 = 2 * err;
        let nx = if e2 > -dy { x + sx } else { x };
        let err1 = if e2 > -dy { err - dy } else { err };
        let ny = if e2 < dx { y + sy } else { y };
        let nerr = if e2 < dx { err1 + dx } else { err1 };
        seq![(x, y, color)] + bres_ops(nx, ny, x2, y2, dx, dy, sx, sy, nerr, color)
    }
}

#[via_fn]
proof fn bres_ops_decreases(
    x: int,
    y: int,
    x2: int,
    y2: int,
    dx: int,
    dy: int,
    sx: int,
    sy: int,
    err: int,
    color: Color,
) {
    if !(x == x2 && y == y2) {
        lemma_bres_step(x, y, x2, y2, dx, dy, sx, sy, err);
    }
}

/// Every compositing step of `line(x1, y1, x2, y2)` drawn with `color`:
/// integer Bresenham stepping from `(x1, y1)` to `(x2, y2)`, both endpoints
/// inclusive.
pub open spec fn line_ops(x1: int, y1: int, x2: int, y2: int, color: Color) -> Seq<PaintOp> {
    let dx = iabs(x2 - x1);
    let dy = iabs(y2 - y1);
    let sx: int = if x1 < x2 {
        1
    } else {
        -1
    };
    let sy: int = if y1 < y2 {
        1
    } else {
        -1
    };
    bres_ops(x1, y1, x2, y2, dx, dy, sx, sy, dx - dy, color)
}

/// The walk's starting state is valid.
proof fn lemma_bres_initial(x1: int, y1: int, x2: int, y2: int)
    ensures
        bres_valid(
            x1,
            y1,
            x2,
            y2,
            iabs(x2 - x1),
            iabs(y2 - y1),
            if x1 < x2 {
                1int
            } else {
                -1int
            },
            if y1 < y2 {
                1int
            } else {
                -1int
            },
            iabs(x2 - x1) - iabs(y2 - y1),
        ),
{
    let sx: int = if x1 < x2 {
        1
    } else {
        -1
    };
    let sy: int = if y1 < y2 {
        1
    } else {
        -1
    };
    let dx = iabs(x2 - x1);
    let dy = iabs(y2 - y1);
    assert((x2 - x1) * sx == dx) by (nonlinear_arith)
        requires
            (x1 < x2 ==> sx == 1 && dx == x2 - x1),
            (!(x1 < x2) ==> sx == -1 && dx == x1 - x2),
    ;
    assert((y2 - y1) * sy == dy) by (nonlinear_arith)
        requires
            (y1 < y2 ==> sy == 1 && dy == y2 - y1),
            (!(y1 < y2) ==> sy == -1 && dy == y1 - y2),
    ;
    assert(dx - dy + (x2 - x1) * sx * dy - (y2 - y1) * sy * dx == dx - dy) by (nonlinear_arith)
        requires
            (x2 - x1) * sx == dx,
            (y2 - y1) * sy == dy,
    ;
}

/// A valid walk position lies in the box spanned by the endpoints.
proof fn lemma_bres_in_box(
    x: int,
    y: int,
    x1: int,
    y1: int,
    x2: int,
    y2: int,
    dx: int,
    dy: int,
    sx: int,
    sy: int,
    err: int,
)
    requires
        bres_valid(x, y, x2, y2, dx, dy, sx, sy, err),
        dx == iabs(x2 - x1),
        dy == iabs(y2 - y1),
        sx == (if x1 < x2 {
            1int
        } else {
            -1int
        }),
        sy == (if y1 < y2 {
            1int
        } else {
            -1int
        }),
    ensures
        (x1 <= x <= x2) || (x2 <= x <= x1),
        (y1 <= y <= y2) || (y2 <= y <= y1),
{
    assert((x1 <= x <= x2) || (x2 <= x <= x1)) by (nonlinear_arith)
        requires
            0 <= (x2 - x) * sx <= dx,
            (x1 < x2 ==> sx == 1 && dx == x2 - x1),
            (!(x1 < x2) ==> sx == -1 && dx == x1 - x2),
    ;
    assert((y1 <= y <= y2) || (y2 <= y <= y1)) by (nonlinear_arith)
        requires
            0 <= (y2 - y) * sy <= dy,
            (y1 < y2 ==> sy == 1 && dy == y2 - y1),
            (!(y1 < y2) ==> sy == -1 && dy == y1 - y2),
    ;
}

/// The error term of a valid state is bounded by the initial distances.
proof fn lemma_bres_err_bound(
    x: int,
    y: int,
    x2: int,
    y2: int,
    dx: int,
    dy: int,
    sx: int,
    sy: int,
    err: int,
    bound: int,
)
    requires
        bres_valid(x, y, x2, y2, dx, dy, sx, sy, err),
        dx <= bound,
        dy <= bound,
        0 <= bound,
    ensures
        -(bound * bound + bound) <= err <= bound * bound + bound,
{
    let rx = (x2 - x) * sx;
    let ry = (y2 - y) * sy;
    assert(-(bound * bound + bound) <= dx - dy + rx * dy - ry * dx <= bound * bound + bound)
        by (nonlinear_arith)
        requires
            0 <= rx <= dx,
            0 <= ry <= dy,
            0 <= dx <= bound,
            0 <= dy <= bound,
            0 <= bound,
    ;
}

/// The compositing steps of `circle` at one scanned pixel `(px, py)`: the
/// fill color when the pixel is not fully transparent-filled and its squared
/// distance to the center is below `r * r`; then the outline color when the
/// outline is not fully transparent and the squared distance differs from
/// `r * r` by at most 25. A pixel can receive both; the outline comes
/// second and wins.
pub open spec fn circle_cell_ops(
    cx: int,
    cy: int,
    r: int,
    fill: Color,
    outline: Color,
    px: int,
    py: int,
) -> Seq<PaintOp> {
    let d2 = (px - cx) * (px - cx) + (py - cy) * (py - cy);
    let r2 = r * r;
    let fill_part: Seq<PaintOp> = if !spec_is_transparent(fill) && d2 < r2 {
        seq![(px, py, fill)]
    } else {
        Seq::empty()
    };
    let outline_part: Seq<PaintOp> = if !spec_is_transparent(outline) && iabs(d2 - r2) <= 25 {
        seq![(px, py, outline)]
    } else {
        Seq::empty()
    };
    fill_part + outline_part
}

/// The circle steps of one scanned column: rows `0 .. rows`, top down.
pub open spec fn circle_col_ops(
    cx: int,
    cy: int,
    r: int,
    fill: Color,
    outline: Color,
    px: int,
    rows: int,
) -> Seq<PaintOp>
    decreases rows,
{
    if rows <= 0 {
        Seq::empty()
    } else {
        circle_col_ops(cx, cy, r, fill, outline, px, rows - 1) + circle_cell_ops(
            cx,
            cy,
            r,
            fill,
            outline,
            px,
            rows - 1,
        )
    }
}

/// Every compositing step of `circle(cx, cy, r)` on a canvas of the given
/// size: a full scan of the columns `0 .. cols`, each column top down.
pub open spec fn circle_ops(
    cx: int,
    cy: int,
    r: int,
    fill: Color,
    outline: Color,
    cols: int,
    rows: int,
) -> Seq<PaintOp>
    decreases cols,
{
    if cols <= 0 {
        Seq::empty()
    } else {
        circle_ops(cx, cy, r, fill, outline, cols - 1, rows) + circle_col_ops(
            cx,
            cy,
            r,
            fill,
            outline,
            cols - 1,
            rows,
        )
    }
}

impl Shape {
    /// Fills the inclusive box `[x1, x2] x [y1, y2]` with the fill color,
    /// then, unless the outline color equals the fill color or is fully
    /// transparent, composites the one-pixel border with the outline color
    /// over the already-filled edge pixels, so the border color wins there.
    /// A reversed interval draws nothing.
    pub fn rect<C: Canvas>(&self, canvas: &mut C, x1: i32, y1: i32, x2: i32, y2: i32)
        requires
            C::view_wf(old(canvas)@),
        ensures
            final(canvas)@ == paint_all::<C>(
                old(canvas)@,
                rect_ops(x1 as int, y1 as int, x2 as int, y2 as int, self.fill, self.outline),
            ),
            C::view_wf(final(canvas)@),
            C::view_width(final(canvas)@) == C::view_width(old(canvas)@),
            C::view_height(final(canvas)@) == C::view_height(old(canvas)@),
    {
        let ghost v0 = canvas@;
        if x1 > x2 || y1 > y2 {
            return ;
        }
        let cols = (x2 as i64) - (x1 as i64) + 1;
        let rows = (y2 as i64) - (y1 as i64) + 1;

        fill_grid(canvas, x1 as i64, y1 as i64, cols, rows, self.fill);

        if self.outline == self.fill {
            return ;
        }
        if self.outline.is_transparent() {
            return ;
        }

        let ghost fill_done = canvas@;
        let mut k: i64 = 0;
        while k < cols
            invariant
                0 <= k <= cols,
                cols == x2 as int - x1 as int + 1,
                x1 <= x2,
                y1 <= y2,
                canvas@ == paint_all::<C>(
                    fill_done,
                    hline_pair_ops(x1 as int, y1 as int, y2 as int, k as int, self.outline),
                ),
                C::view_wf(canvas@),
                C::view_width(canvas@) == C::view_width(fill_done),
                C::view_height(canvas@) == C::view_height(fill_done),
            decreases cols - k,
        {
            let x = ((x1 as i64) + k) as i32;
            canvas.set(x, y1, self.outline);
            canvas.set(x, y2, self.outline);
            proof {
                lemma_paint_all_push_pair::<C>(
                    fill_done,
                    hline_pair_ops(x1 as int, y1 as int, y2 as int, k as int, self.outline),
                    (x as int, y1 as int, self.outline),
                    (x as int, y2 as int, self.outline),
                );
            }
            k = k + 1;
        }

        let ghost hline_done = canvas@;
        let mut j: i64 = 0;
        while j < rows
            invariant
                0 <= j <= rows,
                rows == y2 as int - y1 as int + 1,
                x1 <= x2,
                y1 <= y2,
                canvas@ == paint_all::<C>(
                    hline_done,
                    vline_pair_ops(x1 as int, x2 as int, y1 as int, j as int, self.outline),
                ),
                C::view_wf(canvas@),
                C::view_width(canvas@) == C::view_width(hline_done),
                C::view_height(canvas@) == C::view_height(hline_done),
            decreases rows - j,
        {
            let y = ((y1 as i64) + j) as i32;
            canvas.set(x1, y, self.outline);
            canvas.set(x2, y, self.outline);
            proof {
                lemma_paint_all_push_pair::<C>(
                    hline_done,
                    vline_pair_ops(x1 as int, x2 as int, y1 as int, j as int, self.outline),
                    (x1 as int, y as int, self.outline),
                    (x2 as int, y as int, self.outline),
                );
            }
            j = j + 1;
        }

        proof {
            let fill_part = grid_ops(
                x1 as int,
                y1 as int,
                x2 as int - x1 as int + 1,
                y2 as int - y1 as int + 1,
                self.fill,
            );
            let hpart = hline_pair_ops(x1 as int, y1 as int, y2 as int, x2 as int - x1 as int + 1, self.outline);
            let vpart = vline_pair_ops(x1 as int, x2 as int, y1 as int, y2 as int - y1 as int + 1, self.outline);
            lemma_paint_all_app::<C>(v0, fill_part, hpart);
            lemma_paint_all_app::<C>(v0, fill_part + hpart, vpart);
        }
    }

    /// Draws the line from `(x1, y1)` to `(x2, y2)` with the outline color
    /// (the fill color plays no part), by integer Bresenham stepping. Both
    /// endpoints are plotted.
    pub fn line<C: Canvas>(&self, canvas: &mut C, x1: i32, y1: i32, x2: i32, y2: i32)
        requires
            C::view_wf(old(canvas)@),
        ensures
            final(canvas)@ == paint_all::<C>(
                old(canvas)@,
                line_ops(x1 as int, y1 as int, x2 as int, y2 as int, self.outline),
            ),
            C::view_wf(final(canvas)@),
            C::view_width(final(canvas)@) == C::view_width(old(canvas)@),
            C::view_height(final(canvas)@) == C::view_height(old(canvas)@),
    {
        let ghost v0 = canvas@;
        let color = self.outline;
        let x1w = x1 as i64;
        let y1w = y1 as i64;
        let x2w = x2 as i64;
        let y2w = y2 as i64;
        let dx: i64 = if x2w >= x1w {
            x2w - x1w
        } else {
            x1w - x2w
        };
        let dy: i64 = if y2w >= y1w {
            y2w - y1w
        } else {
            y1w - y2w
        };
        let sx: i64 = if x1 < x2 {
            1
        } else {
            -1
        };
        let sy: i64 = if y1 < y2 {
            1
        } else {
            -1
        };
        let mut x: i64 = x1w;
        let mut y: i64 = y1w;
        let mut err: i128 = (dx as i128) - (dy as i128);
        proof {
            lemma_bres_initial(x1 as int, y1 as int, x2 as int, y2 as int);
        }
        let ghost target = paint_all::<C>(
            v0,
            line_ops(x1 as int, y1 as int, x2 as int, y2 as int, color),
        );
        loop
            invariant_except_break
                C::view_wf(canvas@),
                C::view_width(canvas@) == C::view_width(v0),
                C::view_height(canvas@) == C::view_height(v0),
                x2w == x2 as int,
                y2w == y2 as int,
                0 <= dx as int <= 0x1_0000_0000,
                0 <= dy as int <= 0x1_0000_0000,
                dx as int == iabs(x2 as int - x1 as int),
                dy as int == iabs(y2 as int - y1 as int),
                sx as int == (if (x1 as int) < (x2 as int) { 1int } else { -1int }),
                sy as int == (if (y1 as int) < (y2 as int) { 1int } else { -1int }),
                bres_valid(
                    x as int,
                    y as int,
                    x2 as int,
                    y2 as int,
                    dx as int,
                    dy as int,
                    sx as int,
                    sy as int,
                    err as int,
                ),
                target == paint_all::<C>(
                    v0,
                    line_ops(x1 as int, y1 as int, x2 as int, y2 as int, color),
                ),
                paint_all::<C>(
                    canvas@,
                    bres_ops(
                        x as int,
                        y as int,
                        x2 as int,
                        y2 as int,
                        dx as int,
                        dy as int,
                        sx as int,
                        sy as int,
                        err as int,
                        color,
                    ),
                ) == target,
            ensures
                canvas@ == target,
                C::view_wf(canvas@),
                C::view_width(canvas@) == C::view_width(v0),
                C::view_height(canvas@) == C::view_height(v0),
            decreases (x2 as int - x as int) * (sx as int) + (y2 as int - y as int) * (sy as int),
        {
            let ghost before = canvas@;
            let ghost rest = bres_ops(
                x as int,
                y as int,
                x2 as int,
                y2 as int,
                dx as int,
                dy as int,
                sx as int,
                sy as int,
                err as int,
                color,
            );
            proof {
                lemma_bres_in_box(
                    x as int,
                    y as int,
                    x1 as int,
                    y1 as int,
                    x2 as int,
                    y2 as int,
                    dx as int,
                    dy as int,
                    sx as int,
                    sy as int,
                    err as int,
                );
            }
            canvas.set(x as i32, y as i32, color);
            if x == x2w && y == y2w {
                proof {
                    assert(rest == seq![(x as int, y as int, color)]);
                    assert(rest[0] == (x as int, y as int, color));
                    assert(rest.drop_first() =~= Seq::<PaintOp>::empty());
                    assert(canvas@ == C::composite_view(before, x as int, y as int, color));
                    assert(paint_all::<C>(before, rest) == paint_all::<C>(
                        canvas@,
                        rest.drop_first(),
                    ));
                    assert(paint_all::<C>(canvas@, rest.drop_first()) == canvas@);
                }
                break ;
            }
            proof {
                lemma_bres_step(
                    x as int,
                    y as int,
                    x2 as int,
                    y2 as int,
                    dx as int,
                    dy as int,
                    sx as int,
                    sy as int,
                    err as int,
                );
                lemma_bres_err_bound(
                    x as int,
                    y as int,
                    x2 as int,
                    y2 as int,
                    dx as int,
                    dy as int,
                    sx as int,
                    sy as int,
                    err as int,
                    0x1_0000_0000,
                );
                let e2g = 2 * (err as int);
                let nxg = if e2g > -(dy as int) {
                    x as int + sx as int
                } else {
                    x as int
                };
                let nerr1 = if e2g > -(dy as int) {
                    err as int - dy as int
                } else {
                    err as int
                };
                let nyg = if e2g < dx as int {
                    y as int + sy as int
                } else {
                    y as int
                };
                let nerrg = if e2g < dx as int {
                    nerr1 + dx as int
                } else {
                    nerr1
                };
                let tail = bres_ops(
                    nxg,
                    nyg,
                    x2 as int,
                    y2 as int,
                    dx as int,
                    dy as int,
                    sx as int,
                    sy as int,
                    nerrg,
                    color,
                );
                assert(rest == seq![(x as int, y as int, color)] + tail);
                assert(rest[0] == (x as int, y as int, color));
                assert(rest.drop_first() =~= tail);
            }
            let e2: i128 = 2 * err;
            if e2 > -(dy as i128) {
                err = err - (dy as i128);
                x = x + sx;
            }
            if e2 < (dx as i128) {
                err = err + (dx as i128);
                y = y + sy;
            }
        }
    }

    /// Draws a circle of radius `r` centered at `(x, y)` by scanning every
    /// pixel of the canvas: a pixel whose squared distance to the center is
    /// below `r * r` is filled (unless the fill color is fully transparent),
    /// and a pixel whose squared distance is within 25 of `r * r` gets the
    /// outline color (unless that is fully transparent) — a fixed tolerance,
    /// not scaled with the radius, giving a ring about five pixels wide.
    /// Both can apply to one pixel; the outline is composited second.
    pub fn circle<C: Canvas>(&self, canvas: &mut C, x: i32, y: i32, r: i32)
        requires
            C::view_wf(old(canvas)@),
        ensures
            final(canvas)@ == paint_all::<C>(
                old(canvas)@,
                circle_ops(
                    x as int,
                    y as int,
                    r as int,
                    self.fill,
                    self.outline,
                    C::view_width(old(canvas)@),
                    C::view_height(old(canvas)@),
                ),
            ),
            C::view_wf(final(canvas)@),
            C::view_width(final(canvas)@) == C::view_width(old(canvas)@),
            C::view_height(final(canvas)@) == C::view_height(old(canvas)@),
    {
        let ghost v0 = canvas@;
        let (w, h) = canvas.size();
        proof {
            C::lemma_dims_fit(v0);
        }
        proof {
            assert(0 <= (r as i128) * (r as i128) <= 0x4000000000000000i128) by (nonlinear_arith)
                requires
                    -0x80000000 <= r as i128 <= 0x80000000,
            ;
        }
        let r2: i128 = (r as i128) * (r as i128);

        let mut px: i32 = 0;
        while px < w
            invariant
                C::view_wf(v0),
                0 <= px <= w,
                0 <= h,
                w as int == C::view_width(v0),
                h as int == C::view_height(v0),
                r2 == (r as int) * (r as int),
                0 <= r2 <= 0x4000000000000000i128,
                canvas@ == paint_all::<C>(
                    v0,
                    circle_ops(x as int, y as int, r as int, self.fill, self.outline, px as int, h as int),
                ),
                C::view_wf(canvas@),
                C::view_width(canvas@) == C::view_width(v0),
                C::view_height(canvas@) == C::view_height(v0),
            decreases w - px,
        {
            let ghost vcol = canvas@;
            let mut py: i32 = 0;
            while py < h
                invariant
                    0 <= py <= h,
                    0 <= px < w,
                    r2 == (r as int) * (r as int),
                    0 <= r2 <= 0x4000000000000000i128,
                    vcol == paint_all::<C>(
                        v0,
                        circle_ops(x as int, y as int, r as int, self.fill, self.outline, px as int, h as int),
                    ),
                    canvas@ == paint_all::<C>(
                        vcol,
                        circle_col_ops(x as int, y as int, r as int, self.fill, self.outline, px as int, py as int),
                    ),
                    C::view_wf(canvas@),
                    C::view_width(canvas@) == C::view_width(v0),
                    C::view_height(canvas@) == C::view_height(v0),
                decreases h - py,
            {
                let ghost col_prefix = circle_col_ops(
                    x as int,
                    y as int,
                    r as int,
                    self.fill,
                    self.outline,
                    px as int,
                    py as int,
                );
                let ghost cell = circle_cell_ops(
                    x as int,
                    y as int,
                    r as int,
                    self.fill,
                    self.outline,
                    px as int,
                    py as int,
                );
                let dx: i128 = (px as i128) - (x as i128);
                let dy: i128 = (py as i128) - (y as i128);
                proof {
                    assert(0 <= dx * dx <= 0x10000000000000000i128 && 0 <= dy * dy
                        <= 0x10000000000000000i128) by (nonlinear_arith)
                        requires
                            -0x100000000 <= dx <= 0x100000000,
                            -0x100000000 <= dy <= 0x100000000,
                    ;
                }
                let d2: i128 = dx * dx + dy * dy;

                let fill_hit = !self.fill.is_transparent() && d2 < r2;
                let outline_hit = !self.outline.is_transparent() && ({
                    let diff = if d2 >= r2 {
                        d2 - r2
                    } else {
                        r2 - d2
                    };
                    diff <= 25
                });
                if fill_hit {
                    canvas.set(px, py, self.fill);
                }
                if outline_hit {
                    canvas.set(px, py, self.outline);
                }
                proof {
                    lemma_paint_all_app::<C>(vcol, col_prefix, cell);
                    if fill_hit && outline_hit {
                        assert(cell =~= seq![
                            (px as int, py as int, self.fill),
                            (px as int, py as int, self.outline),
                        ]);
                        assert(col_prefix + cell =~= col_prefix.push(
                            (px as int, py as int, self.fill),
                        ).push((px as int, py as int, self.outline)));
                        lemma_paint_all_push::<C>(
                            vcol,
                            col_prefix.push((px as int, py as int, self.fill)),
                            (px as int, py as int, self.outline),
                        );
                        lemma_paint_all_push::<C>(vcol, col_prefix, (px as int, py as int, self.fill));
                    } else if fill_hit {
                        assert(col_prefix + cell =~= col_prefix.push((px as int, py as int, self.fill)));
                        lemma_paint_all_push::<C>(vcol, col_prefix, (px as int, py as int, self.fill));
                    } else if outline_hit {
                        assert(col_prefix + cell =~= col_prefix.push(
                            (px as int, py as int, self.outline),
                        ));
                        lemma_paint_all_push::<C>(vcol, col_prefix, (px as int, py as int, self.outline));
                    } else {
                        assert(col_prefix + cell =~= col_prefix);
                    }
                }
                py = py + 1;
            }
            proof {
                lemma_paint_all_app::<C>(
                    v0,
                    circle_ops(x as int, y as int, r as int, self.fill, self.outline, px as int, h as int),
                    circle_col_ops(x as int, y as int, r as int, self.fill, self.outline, px as int, h as int),
                );
            }
            px = px + 1;
        }
    }
}

/// A degenerate rectangle call `rect(x, y, x, y)` touches exactly the one
/// pixel `(x, y)`: it is filled once, and when an outline applies, each
/// border pass composites the outline onto that same pixel.
pub proof fn lemma_rect_single_pixel(x: int, y: int, fill: Color, outline: Color)
    ensures
        rect_ops(x, y, x, y, fill, outline).len() >= 1,
        forall|i: int|
            0 <= i < rect_ops(x, y, x, y, fill, outline).len() ==> (#[trigger] rect_ops(
                x,
                y,
                x,
                y,
                fill,
                outline,
            )[i]).0 == x && rect_ops(x, y, x, y, fill, outline)[i].1 == y,
{
    let fill_part = grid_ops(x, y, 1, 1, fill);
    assert(grid_ops(x, y, 0, 1, fill) =~= Seq::<PaintOp>::empty());
    assert(col_ops(x, y, 0, fill) =~= Seq::<PaintOp>::empty());
    assert(fill_part =~= seq![(x, y, fill)]);
    if outline == fill || spec_is_transparent(outline) {
        assert(rect_ops(x, y, x, y, fill, outline) =~= seq![(x, y, fill)]);
    } else {
        let hpart = hline_pair_ops(x, y, y, 1, outline);
        let vpart = vline_pair_ops(x, x, y, 1, outline);
        assert(hline_pair_ops(x, y, y, 0, outline) =~= Seq::<PaintOp>::empty());
        assert(vline_pair_ops(x, x, y, 0, outline) =~= Seq::<PaintOp>::empty());
        assert(hpart =~= seq![(x, y, outline), (x, y, outline)]);
        assert(vpart =~= seq![(x, y, outline), (x, y, outline)]);
        assert(rect_ops(x, y, x, y, fill, outline) =~= seq![
            (x, y, fill),
            (x, y, outline),
            (x, y, outline),
            (x, y, outline),
            (x, y, outline),
        ]);
    }
}

/// A reversed interval draws nothing at all.
pub proof fn lemma_rect_reversed_empty(
    x1: int,
    y1: int,
    x2: int,
    y2: int,
    fill: Color,
    outline: Color,
)
    requires
        x1 > x2 || y1 > y2,
    ensures
        rect_ops(x1, y1, x2, y2, fill, outline) == Seq::<PaintOp>::empty(),
{
}

proof fn lemma_contains_concat_left(a: Seq<PaintOp>, b: Seq<PaintOp>, x: PaintOp)
    requires
        a.contains(x),
    ensures
        (a + b).contains(x),
{
    let i = choose|i: int| 0 <= i < a.len() && a[i] == x;
    assert((a + b)[i] == x);
}

proof fn lemma_contains_concat_right(a: Seq<PaintOp>, b: Seq<PaintOp>, x: PaintOp)
    requires
        b.contains(x),
    ensures
        (a + b).contains(x),
{
    let i = choose|i: int| 0 <= i < b.len() && b[i] == x;
    assert((a + b)[a.len() + i] == x);
}

proof fn lemma_contains_concat_inv(a: Seq<PaintOp>, b: Seq<PaintOp>, x: PaintOp)
    requires
        (a + b).contains(x),
    ensures
        a.contains(x) || b.contains(x),
{
    let i = choose|i: int| 0 <= i < (a + b).len() && (a + b)[i] == x;
    if i < a.len() {
        assert(a[i] == x);
    } else {
        assert(b[i - a.len()] == x);
    }
}

/// One scanned column of a circle drawn with a fully transparent outline
/// composites exactly the fill color at the in-circle pixels of the column.
proof fn lemma_circle_col_transparent_outline(
    cx: int,
    cy: int,
    r: int,
    fill: Color,
    outline: Color,
    px: int,
    rows: int,
)
    requires
        spec_is_transparent(outline),
    ensures
        forall|op: PaintOp|
            circle_col_ops(cx, cy, r, fill, outline, px, rows).contains(op) ==> {
                &&& op.2 == fill
                &&& !spec_is_transparent(fill)
                &&& op.0 == px
                &&& 0 <= op.1 < rows
                &&& (op.0 - cx) * (op.0 - cx) + (op.1 - cy) * (op.1 - cy) < r * r
            },
        forall|py: int|
            0 <= py < rows && !spec_is_transparent(fill) && (px - cx) * (px - cx) + (py - cy) * (py
                - cy) < r * r ==> circle_col_ops(cx, cy, r, fill, outline, px, rows).contains(
                (px, py, fill),
            ),
    decreases rows,
{
    if rows <= 0 {
    } else {
        let prefix = circle_col_ops(cx, cy, r, fill, outline, px, rows - 1);
        let cell = circle_cell_ops(cx, cy, r, fill, outline, px, rows - 1);
        let d2 = (px - cx) * (px - cx) + (rows - 1 - cy) * (rows - 1 - cy);
        lemma_circle_col_transparent_outline(cx, cy, r, fill, outline, px, rows - 1);
        if !spec_is_transparent(fill) && d2 < r * r {
            assert(cell =~= seq![(px, rows - 1, fill)]);
        } else {
            assert(cell =~= Seq::<PaintOp>::empty());
        }
        assert forall|op: PaintOp|
            circle_col_ops(cx, cy, r, fill, outline, px, rows).contains(op) implies {
            &&& op.2 == fill
            &&& !spec_is_transparent(fill)
            &&& op.0 == px
            &&& 0 <= op.1 < rows
            &&& (op.0 - cx) * (op.0 - cx) + (op.1 - cy) * (op.1 - cy) < r * r
        } by {
            lemma_contains_concat_inv(prefix, cell, op);
            if cell.contains(op) {
                assert(op == (px, rows - 1, fill));
            }
        }
        assert forall|py: int|
            0 <= py < rows && !spec_is_transparent(fill) && (px - cx) * (px - cx) + (py - cy) * (py
                - cy) < r * r implies circle_col_ops(cx, cy, r, fill, outline, px, rows).contains(
            (px, py, fill),
        ) by {
            if py < rows - 1 {
                lemma_contains_concat_left(prefix, cell, (px, py, fill));
            } else {
                assert(cell[0] == (px, py, fill));
                lemma_contains_concat_right(prefix, cell, (px, py, fill));
            }
        }
    }
}

/// A circle drawn with a fully transparent outline composites exactly the
/// fill color — no outline pixel at all — and exactly at the scanned
/// in-bounds pixels whose squared distance to the center is below `r * r`
/// (and only when the fill itself is not fully transparent).
pub proof fn lemma_circle_transparent_outline(
    cx: int,
    cy: int,
    r: int,
    fill: Color,
    outline: Color,
    cols: int,
    rows: int,
)
    requires
        spec_is_transparent(outline),
    ensures
        forall|op: PaintOp|
            circle_ops(cx, cy, r, fill, outline, cols, rows).contains(op) ==> {
                &&& op.2 == fill
                &&& !spec_is_transparent(fill)
                &&& 0 <= op.0 < cols
                &&& 0 <= op.1 < rows
                &&& (op.0 - cx) * (op.0 - cx) + (op.1 - cy) * (op.1 - cy) < r * r
            },
        forall|px: int, py: int|
            0 <= px < cols && 0 <= py < rows && !spec_is_transparent(fill) && (px - cx) * (px - cx)
                + (py - cy) * (py - cy) < r * r ==> circle_ops(
                cx,
                cy,
                r,
                fill,
                outline,
                cols,
                rows,
            ).contains((px, py, fill)),
    decreases cols,
{
    if cols <= 0 {
    } else {
        let prefix = circle_ops(cx, cy, r, fill, outline, cols - 1, rows);
        let col = circle_col_ops(cx, cy, r, fill, outline, cols - 1, rows);
        lemma_circle_transparent_outline(cx, cy, r, fill, outline, cols - 1, rows);
        lemma_circle_col_transparent_outline(cx, cy, r, fill, outline, cols - 1, rows);
        assert forall|op: PaintOp|
            circle_ops(cx, cy, r, fill, outline, cols, rows).contains(op) implies {
            &&& op.2 == fill
            &&& !spec_is_transparent(fill)
            &&& 0 <= op.0 < cols
            &&& 0 <= op.1 < rows
            &&& (op.0 - cx) * (op.0 - cx) + (op.1 - cy) * (op.1 - cy) < r * r
        } by {
            lemma_contains_concat_inv(prefix, col, op);
        }
        assert forall|px: int, py: int|
            0 <= px < cols && 0 <= py < rows && !spec_is_transparent(fill) && (px - cx) * (px - cx)
                + (py - cy) * (py - cy) < r * r implies circle_ops(
            cx,
            cy,
            r,
            fill,
            outline,
            cols,
            rows,
        ).contains((px, py, fill)) by {
            if px < cols - 1 {
                lemma_contains_concat_left(prefix, col, (px, py, fill));
            } else {
                lemma_contains_concat_right(prefix, col, (px, py, fill));
            }
        }
    }
}

/// The Bresenham walk along a horizontal stretch, from `x` to `x2` at
/// height `y`, plots exactly the pixels `(x, y) .. (x2, y)`, in order.
proof fn lemma_bres_horizontal(x: int, y: int, x2: int, dx: int, color: Color)
    requires
        x <= x2,
        x2 - x <= dx,
        0 < dx || x == x2,
        0 <= dx,
    ensures
        bres_ops(x, y, x2, y, dx, 0, 1, -1, dx, color) =~= Seq::new(
            (x2 - x + 1) as nat,
            |i: int| (x + i, y, color),
        ),
    decreases x2 - x,
{
    assert(bres_valid(x, y, x2, y, dx, 0, 1, -1, dx)) by (nonlinear_arith)
        requires
            x <= x2,
            x2 - x <= dx,
            0 <= dx,
    ;
    if x == x2 {
        assert(bres_ops(x, y, x2, y, dx, 0, 1, -1, dx, color) == seq![(x, y, color)]);
        assert(bres_ops(x, y, x2, y, dx, 0, 1, -1, dx, color) =~= Seq::new(
            1nat,
            |i: int| (x + i, y, color),
        ));
    } else {
        lemma_bres_horizontal(x + 1, y, x2, dx, color);
        let e2 = 2 * dx;
        assert(e2 > 0);
        assert(!(e2 < dx));
        assert(bres_ops(x, y, x2, y, dx, 0, 1, -1, dx, color) == seq![(x, y, color)] + bres_ops(
            x + 1,
            y,
            x2,
            y,
            dx,
            0,
            1,
            -1,
            dx,
            color,
        ));
        assert(bres_ops(x, y, x2, y, dx, 0, 1, -1, dx, color) =~= Seq::new(
            (x2 - x + 1) as nat,
            |i: int| (x + i, y, color),
        ));
    }
}

/// A horizontal line from `(x1, y)` to `(x2, y)` with `x1 <= x2` plots
/// exactly the pixels `(x1, y) .. (x2, y)`, in order, each once.
pub proof fn lemma_line_horizontal(x1: int, y: int, x2: int, color: Color)
    requires
        x1 <= x2,
    ensures
        line_ops(x1, y, x2, y, color).len() == x2 - x1 + 1,
        forall|i: int|
            0 <= i <= x2 - x1 ==> line_ops(x1, y, x2, y, color)[i] == (x1 + i, y, color),
{
    if x1 == x2 {
        assert(bres_valid(x1, y, x2, y, 0, 0, -1, -1, 0)) by (nonlinear_arith)
            requires
                x1 == x2,
        ;
        assert(line_ops(x1, y, x2, y, color) == bres_ops(x1, y, x2, y, 0, 0, -1, -1, 0, color));
        assert(bres_ops(x1, y, x2, y, 0, 0, -1, -1, 0, color) == seq![(x1, y, color)]);
    } else {
        lemma_bres_horizontal(x1, y, x2, x2 - x1, color);
        assert(line_ops(x1, y, x2, y, color) == bres_ops(
            x1,
            y,
            x2,
            y,
            x2 - x1,
            0,
            1,
            -1,
            x2 - x1,
            color,
        ));
    }
}

} // verus!
