use vstd::prelude::*;

use crate::color::Color;

verus! {

/// One compositing step: a target coordinate pair and the color composited
/// there. A drawing operation is described by the sequence of such steps it
/// performs, in order; order matters, because compositing is not commutative.
pub type PaintOp = (int, int, Color);

/// An abstract drawable surface.
///
/// Every drawing primitive in this crate is expressed through [`Canvas::set`],
/// which composites one color onto one pixel and must be a no-op (never a
/// fault) outside `[0, width) x [0, height)`. How a color is composited onto
/// a pixel is the implementor's choice, stated on the surface's view by the
/// abstract [`Canvas::composite_view`] function.
pub trait Canvas: View + Sized {
    /// Well-formedness of a surface value; required by every operation.
    spec fn view_wf(v: Self::V) -> bool;

    /// Width in pixels.
    spec fn view_width(v: Self::V) -> int;

    /// Height in pixels.
    spec fn view_height(v: Self::V) -> int;

    /// The surface after compositing `color` onto the pixel at `(x, y)`;
    /// the surface unchanged when `(x, y)` is out of bounds.
    spec fn composite_view(v: Self::V, x: int, y: int, color: Color) -> Self::V;

    /// The surface after clearing every pixel to `color`.
    spec fn clear_view(v: Self::V, color: Color) -> Self::V;

    /// Compositing outside `[0, width) x [0, height)` changes nothing.
    proof fn lemma_composite_out_of_bounds(v: Self::V, x: int, y: int, color: Color)
        requires
            Self::view_wf(v),
            !(0 <= x < Self::view_width(v) && 0 <= y < Self::view_height(v)),
        ensures
            Self::composite_view(v, x, y, color) == v,
    ;

    /// The dimensions of a well-formed surface fit in `i32`.
    proof fn lemma_dims_fit(v: Self::V)
        requires
            Self::view_wf(v),
        ensures
            0 <= Self::view_width(v) <= i32::MAX,
            0 <= Self::view_height(v) <= i32::MAX,
    ;

    /// Returns the current `(width, height)` in pixels.
    fn size(&self) -> (wh: (i32, i32))
        requires
            Self::view_wf(self@),
        ensures
            wh.0 as int == Self::view_width(self@),
            wh.1 as int == Self::view_height(self@),
    ;

    /// Composites `color` onto the pixel at `(x, y)`; a no-op when `(x, y)`
    /// is out of bounds.
    fn set(&mut self, x: i32, y: i32, color: Color)
        requires
            Self::view_wf(old(self)@),
        ensures
            final(self)@ == Self::composite_view(old(self)@, x as int, y as int, color),
            Self::view_wf(final(self)@),
            Self::view_width(final(self)@) == Self::view_width(old(self)@),
            Self::view_height(final(self)@) == Self::view_height(old(self)@),
    ;

    /// Clears every pixel to `color`. Implementations may composite `color`
    /// over every pixel (see [`clear_by_set`]) or overwrite pixels directly;
    /// [`Canvas::clear_view`] says which.
    fn clear(&mut self, color: Color)
        requires
            Self::view_wf(old(self)@),
        ensures
            final(self)@ == Self::clear_view(old(self)@, color),
            Self::view_wf(final(self)@),
            Self::view_width(final(self)@) == Self::view_width(old(self)@),
            Self::view_height(final(self)@) == Self::view_height(old(self)@),
    ;
}

/// The surface obtained by performing every compositing step of `ops` on
/// `v`, in order.
pub open spec fn paint_all<C: Canvas>(v: C::V, ops: Seq<PaintOp>) -> C::V
    decreases ops.len(),
{
    if ops.len() <= 0 {
        v
    } else {
        paint_all::<C>(C::composite_view(v, ops[0].0, ops[0].1, ops[0].2), ops.drop_first())
    }
}

/// Appending one step paints it after all the others.
pub proof fn lemma_paint_all_push<C: Canvas>(v: C::V, ops: Seq<PaintOp>, op: PaintOp)
    ensures
        paint_all::<C>(v, ops.push(op)) == C::composite_view(
            paint_all::<C>(v, ops),
            op.0,
            op.1,
            op.2,
        ),
    decreases ops.len(),
{
    if ops.len() == 0 {
        assert(ops.push(op)[0] == op);
        assert(ops.push(op).drop_first() =~= Seq::<PaintOp>::empty());
        assert(paint_all::<C>(v, ops.push(op)) == paint_all::<C>(
            C::composite_view(v, op.0, op.1, op.2),
            Seq::<PaintOp>::empty(),
        ));
        assert(paint_all::<C>(v, ops) == v);
    } else {
        assert(ops.push(op)[0] == ops[0]);
        assert(ops.push(op).drop_first() =~= ops.drop_first().push(op));
        lemma_paint_all_push::<C>(
            C::composite_view(v, ops[0].0, ops[0].1, ops[0].2),
            ops.drop_first(),
            op,
        );
    }
}

/// Painting a concatenation paints the first part, then the second.
pub proof fn lemma_paint_all_app<C: Canvas>(v: C::V, ops1: Seq<PaintOp>, ops2: Seq<PaintOp>)
    ensures
        paint_all::<C>(v, ops1 + ops2) == paint_all::<C>(paint_all::<C>(v, ops1), ops2),
    decreases ops2.len(),
{
    if ops2.len() == 0 {
        assert(ops1 + ops2 =~= ops1);
    } else {
        let front = ops2.drop_last();
        let last = ops2.last();
        lemma_paint_all_app::<C>(v, ops1, front);
        assert((ops1 + front).push(last) =~= ops1 + ops2);
        lemma_paint_all_push::<C>(v, ops1 + front, last);
        assert(front.push(last) =~= ops2);
        lemma_paint_all_push::<C>(paint_all::<C>(v, ops1), front, last);
    }
}

/// The steps of painting one column: `(x, y0) .. (x, y0 + rows - 1)`,
/// top down.
pub open spec fn col_ops(x: int, y0: int, rows: int, color: Color) -> Seq<PaintOp>
    decreases rows,
{
    if rows <= 0 {
        Seq::empty()
    } else {
        col_ops(x, y0, rows - 1, color).push((x, y0 + rows - 1, color))
    }
}

/// The steps of painting the axis-aligned box of `cols` columns and `rows`
/// rows whose top-left pixel is `(x0, y0)`: column by column, each column
/// top down.
pub open spec fn grid_ops(x0: int, y0: int, cols: int, rows: int, color: Color) -> Seq<PaintOp>
    decreases cols,
{
    if cols <= 0 {
        Seq::empty()
    } else {
        grid_ops(x0, y0, cols - 1, rows, color) + col_ops(x0 + cols - 1, y0, rows, color)
    }
}

/// Composites `color` onto every pixel of the box of `cols` x `rows` pixels
/// at `(x0, y0)`, column by column, top down.
pub(crate) fn fill_grid<C: Canvas>(canvas: &mut C, x0: i64, y0: i64, cols: i64, rows: i64, color: Color)
    requires
        C::view_wf(old(canvas)@),
        0 <= cols,
        0 <= rows,
        i32::MIN <= x0,
        x0 + cols <= i32::MAX as int + 1,
        i32::MIN <= y0,
        y0 + rows <= i32::MAX as int + 1,
    ensures
        final(canvas)@ == paint_all::<C>(
            old(canvas)@,
            grid_ops(x0 as int, y0 as int, cols as int, rows as int, color),
        ),
        C::view_wf(final(canvas)@),
        C::view_width(final(canvas)@) == C::view_width(old(canvas)@),
        C::view_height(final(canvas)@) == C::view_height(old(canvas)@),
{
    let ghost v0 = canvas@;
    let mut k: i64 = 0;
    while k < cols
        invariant
            C::view_wf(v0),
            0 <= k <= cols,
            i32::MIN <= x0,
            x0 + cols <= i32::MAX as int + 1,
            i32::MIN <= y0,
            y0 + rows <= i32::MAX as int + 1,
            0 <= rows,
            canvas@ == paint_all::<C>(v0, grid_ops(x0 as int, y0 as int, k as int, rows as int, color)),
            C::view_wf(canvas@),
            C::view_width(canvas@) == C::view_width(v0),
            C::view_height(canvas@) == C::view_height(v0),
        decreases cols - k,
    {
        let ghost vcol = canvas@;
        let x = x0 + k;
        let mut j: i64 = 0;
        while j < rows
            invariant
                0 <= j <= rows,
                x == x0 + k,
                i32::MIN <= x <= i32::MAX,
                i32::MIN <= y0,
                y0 + rows <= i32::MAX as int + 1,
                vcol == paint_all::<C>(v0, grid_ops(x0 as int, y0 as int, k as int, rows as int, color)),
                canvas@ == paint_all::<C>(vcol, col_ops(x as int, y0 as int, j as int, color)),
                C::view_wf(canvas@),
                C::view_width(canvas@) == C::view_width(v0),
                C::view_height(canvas@) == C::view_height(v0),
            decreases rows - j,
        {
            let y = y0 + j;
            canvas.set(x as i32, y as i32, color);
            proof {
                lemma_paint_all_push::<C>(
                    vcol,
                    col_ops(x as int, y0 as int, j as int, color),
                    (x as int, y as int, color),
                );
            }
            j = j + 1;
        }
        proof {
            lemma_paint_all_app::<C>(
                v0,
                grid_ops(x0 as int, y0 as int, k as int, rows as int, color),
                col_ops(x as int, y0 as int, rows as int, color),
            );
        }
        k = k + 1;
    }
}

/// Clears a canvas by compositing `color` onto every pixel of
/// `[0, width) x [0, height)` with [`Canvas::set`], column by column. This is
/// the generic clearing strategy; unlike a direct-write `clear`, blending
/// applies to every pixel.
pub fn clear_by_set<C: Canvas>(canvas: &mut C, color: Color)
    requires
        C::view_wf(old(canvas)@),
    ensures
        final(canvas)@ == paint_all::<C>(
            old(canvas)@,
            grid_ops(0, 0, C::view_width(old(canvas)@), C::view_height(old(canvas)@), color),
        ),
        C::view_wf(final(canvas)@),
        C::view_width(final(canvas)@) == C::view_width(old(canvas)@),
        C::view_height(final(canvas)@) == C::view_height(old(canvas)@),
{
    let (width, height) = canvas.size();
    proof {
        C::lemma_dims_fit(canvas@);
    }
    fill_grid(canvas, 0, 0, width as i64, height as i64, color);
}

} // verus!
