//! Brush stamps: painting one cell, a rectangle or a centred square, and
//! keeping the list of cells that a stroke has touched.

use vstd::prelude::*;
use crate::grid::{Grid, GridView, composite, lemma_offset_in_range, lemma_same_pixels};

verus! {

/// The cell `(i, j)` lies in the rectangle with corner `(x, y)`, `w`
/// columns and `h` rows.
pub open spec fn in_rect(x: int, y: int, w: int, h: int, i: int, j: int) -> bool {
    x <= i < x + w && y <= j < y + h
}

/// The pixel at `(i, j)` after the rectangle has been painted: composited
/// once with the colour inside the rectangle, as it was outside.
pub open spec fn rect_pixel(
    canvas: GridView,
    x: int,
    y: int,
    w: int,
    h: int,
    color: [u8; 4],
    i: int,
    j: int,
) -> [u8; 4] {
    if in_rect(x, y, w, h, i, j) {
        composite(canvas.pixel(i, j), color)
    } else {
        canvas.pixel(i, j)
    }
}

/// The canvas after `color` has been painted once on each of its cells
/// that lies in the rectangle.
pub open spec fn stamp_rect(canvas: GridView, x: int, y: int, w: int, h: int, color: [u8; 4]) -> GridView {
    GridView {
        cells: Seq::new(
            canvas.cells.len(),
            |k: int|
                rect_pixel(
                    canvas,
                    x,
                    y,
                    w,
                    h,
                    color,
                    k % (canvas.width as int),
                    k / (canvas.width as int),
                ),
        ),
        ..canvas
    }
}

/// The rectangle that a square stamp of the given size covers when it is
/// centred on `(x, y)`: corner, columns, rows. A size of one is the cell
/// itself; an odd size above one covers one column and one row more than
/// it names.
pub open spec fn square_rect(x: int, y: int, size: int) -> (int, int, int, int) {
    if size == 1 {
        (x, y, 1, 1)
    } else if size % 2 == 0 {
        (x - size / 2, y - size / 2, size, size)
    } else {
        (x - size / 2, y - size / 2, size + 1, size + 1)
    }
}

/// A stamped canvas is a valid canvas of the same size whose pixels are
/// as `rect_pixel` says.
pub proof fn lemma_stamp_rect_pixels(canvas: GridView, x: int, y: int, w: int, h: int, color: [u8; 4])
    requires
        canvas.wf(),
    ensures
        stamp_rect(canvas, x, y, w, h, color).wf(),
        forall|i: int, j: int|
            canvas.in_bounds(i, j) ==> #[trigger] stamp_rect(canvas, x, y, w, h, color).pixel(i, j)
                == rect_pixel(canvas, x, y, w, h, color, i, j),
{
    assert forall|i: int, j: int| canvas.in_bounds(i, j) implies #[trigger] stamp_rect(
        canvas,
        x,
        y,
        w,
        h,
        color,
    ).pixel(i, j) == rect_pixel(canvas, x, y, w, h, color, i, j) by {
        lemma_offset_in_range(canvas.width, canvas.height, i, j);
    }
}

/// `low` brought into the range of a side of the canvas.
spec fn clamped(low: int, side: int) -> int {
    if low <= 0 {
        0
    } else if low >= side {
        side
    } else {
        low
    }
}

/// The first of the canvas's columns (or rows) that is not below `low`.
fn clamp_low(low: i64, side: usize) -> (r: usize)
    ensures
        r == clamped(low as int, side as int),
{
    if low <= 0 {
        0
    } else if low as u64 >= side as u64 {
        side
    } else {
        low as usize
    }
}

impl Grid {
    /// Paint one cell; nothing happens where it lies outside the canvas.
    pub fn paint_single(&mut self, x: i32, y: i32, color: [u8; 4])
        requires
            old(self).wf(),
        ensures
            final(self).wf(),
            final(self)@ == old(self)@.set(x as int, y as int, color),
    {
        if x < 0 || y < 0 {
            return ;
        }
        self.set(x as usize, y as usize, color);
    }

    /// Paints every cell of the canvas with `left <= i < right` and
    /// `top <= j < bottom`, once.
    fn fill(&mut self, left: i64, top: i64, right: i64, bottom: i64, color: [u8; 4])
        requires
            old(self).wf(),
        ensures
            final(self).wf(),
            final(self)@ == stamp_rect(
                old(self)@,
                left as int,
                top as int,
                right - left,
                bottom - top,
                color,
            ),
    {
        let x0 = clamp_low(left, self.width);
        let x1 = clamp_low(right, self.width);
        let y0 = clamp_low(top, self.height);
        let y1 = clamp_low(bottom, self.height);
        let ghost before = self@;
        let ghost w = right - left;
        let ghost h = bottom - top;
        let mut i: usize = x0;
        while i < x1
            invariant
                self.wf(),
                before.wf(),
                self@.width == before.width,
                self@.height == before.height,
                x0 <= i,
                w == right - left,
                h == bottom - top,
                x1 <= self.width,
                y1 <= self.height,
                x0 == clamped(left as int, before.width as int),
                x1 == clamped(right as int, before.width as int),
                y0 == clamped(top as int, before.height as int),
                y1 == clamped(bottom as int, before.height as int),
                forall|a: int, b: int|
                    before.in_bounds(a, b) ==> #[trigger] self@.pixel(a, b) == if a < i {
                        rect_pixel(before, left as int, top as int, w, h, color, a, b)
                    } else {
                        before.pixel(a, b)
                    },
            decreases x1 - i,
        {
            let mut j: usize = y0;
            while j < y1
                invariant
                    self.wf(),
                    before.wf(),
                    self@.width == before.width,
                    self@.height == before.height,
                    x0 <= i < x1,
                    y0 <= j,
                    w == right - left,
                    h == bottom - top,
                    x1 <= self.width,
                    y1 <= self.height,
                    x0 == clamped(left as int, before.width as int),
                    x1 == clamped(right as int, before.width as int),
                    y0 == clamped(top as int, before.height as int),
                    y1 == clamped(bottom as int, before.height as int),
                    forall|a: int, b: int|
                        before.in_bounds(a, b) ==> #[trigger] self@.pixel(a, b) == if a < i || (a
                            == i && b < j) {
                            rect_pixel(before, left as int, top as int, w, h, color, a, b)
                        } else {
                            before.pixel(a, b)
                        },
                decreases y1 - j,
            {
                let ghost mid = self@;
                self.set(i, j, color);
                proof {
                    lemma_offset_in_range(before.width, before.height, i as int, j as int);
                    assert(self@.pixel(i as int, j as int) == composite(
                        mid.pixel(i as int, j as int),
                        color,
                    ));
                    assert forall|a: int, b: int| before.in_bounds(a, b) implies #[trigger] self@.pixel(
                        a,
                        b,
                    ) == if a < i || (a == i && b < j + 1) {
                        rect_pixel(before, left as int, top as int, w, h, color, a, b)
                    } else {
                        before.pixel(a, b)
                    } by {
                        if !(a == i && b == j) {
                            assert(self@.pixel(a, b) == mid.pixel(a, b));
                        }
                    }
                }
                j += 1;
            }
            i += 1;
        }
        proof {
            let after = stamp_rect(before, left as int, top as int, w, h, color);
            lemma_stamp_rect_pixels(before, left as int, top as int, w, h, color);
            assert forall|a: int, b: int| self@.in_bounds(a, b) implies self@.pixel(a, b)
                == after.pixel(a, b) by {
                assert(before.in_bounds(a, b));
            }
            lemma_same_pixels(self@, after);
        }
    }

    /// Paint a rectangle with corner `(x, y)`, `w` columns and `h` rows.
    /// What lies outside the canvas is left out; nothing is painted where
    /// `w` or `h` is not positive.
    pub fn paint_rect(&mut self, x: i32, y: i32, w: i32, h: i32, color: [u8; 4])
        requires
            old(self).wf(),
        ensures
            final(self).wf(),
            final(self)@ == stamp_rect(old(self)@, x as int, y as int, w as int, h as int, color),
    {
        self.fill(x as i64, y as i64, x as i64 + w as i64, y as i64 + h as i64, color);
    }

    /// Paint a square stamp of the given size, centred on `(x, y)`.
    pub fn paint_square(&mut self, x: i32, y: i32, size: i32, color: [u8; 4])
        requires
            old(self).wf(),
        ensures
            final(self).wf(),
            ({
                let (left, top, w, h) = square_rect(x as int, y as int, size as int);
                final(self)@ == stamp_rect(old(self)@, left, top, w, h, color)
            }),
    {
        let ghost (left, top, w, h) = square_rect(x as int, y as int, size as int);
        if size <= 0 {
            proof {
                assert(w <= 0);
                lemma_stamp_rect_pixels(self@, left, top, w, h, color);
                lemma_same_pixels(stamp_rect(self@, left, top, w, h, color), self@);
            }
            return ;
        }
        let side: i64 = if size == 1 || size % 2 == 0 {
            size as i64
        } else {
            size as i64 + 1
        };
        let half: i64 = if size == 1 {
            0
        } else {
            (size / 2) as i64
        };
        let corner_x = x as i64 - half;
        let corner_y = y as i64 - half;
        self.fill(corner_x, corner_y, corner_x + side, corner_y + side, color);
    }
}

/// Add the cell to the stroke unless it is there already. Says whether it
/// was added.
pub fn record_cell(cells: &mut Vec<(usize, usize)>, x: usize, y: usize) -> (fresh: bool)
    ensures
        fresh == !old(cells)@.contains((x, y)),
        fresh ==> final(cells)@ == old(cells)@.push((x, y)),
        !fresh ==> final(cells)@ == old(cells)@,
        old(cells)@.no_duplicates() ==> final(cells)@.no_duplicates(),
{
    let mut k: usize = 0;
    while k < cells.len()
        invariant
            k <= cells@.len(),
            cells@ == old(cells)@,
            forall|m: int| 0 <= m < k ==> cells@[m] != (x, y),
        decreases cells@.len() - k,
    {
        let cell = cells[k];
        if cell.0 == x && cell.1 == y {
            return false;
        }
        k += 1;
    }
    cells.push((x, y));
    true
}

} // verus!
