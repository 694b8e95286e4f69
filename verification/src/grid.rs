//! The pixel canvas: a row-major grid of RGBA cells, with the compositing
//! rule used when painting over it.

use vstd::prelude::*;
use vstd::pervasive::runtime_assert;

verus! {

/// The fully transparent pixel.
pub open spec fn transparent() -> [u8; 4] {
    [0u8, 0u8, 0u8, 0u8]
}

/// One colour channel after a stroke of alpha `a` is laid over it:
/// the weighted mean of the old and the new value, rounded down.
pub open spec fn mix_channel(old_c: u8, new_c: u8, a: u8) -> u8 {
    ((old_c as int * (255 - a as int) + new_c as int * a as int) / 255) as u8
}

/// Alpha after a stroke of alpha `a`: the sum, capped at 255.
pub open spec fn add_alpha(old_a: u8, a: u8) -> u8 {
    if old_a as int + a as int > 255 {
        255u8
    } else {
        (old_a as int + a as int) as u8
    }
}

/// The pixel that results from painting `color` over `old_px`.
///
/// A transparent colour leaves the pixel as it is, an opaque one replaces it,
/// and anything between blends the colour channels by the stroke's own alpha
/// while the alpha channel accumulates.
pub open spec fn composite(old_px: [u8; 4], color: [u8; 4]) -> [u8; 4] {
    if color[3] == 0 {
        old_px
    } else if color[3] == 255 {
        color
    } else {
        [
            mix_channel(old_px[0], color[0], color[3]),
            mix_channel(old_px[1], color[1], color[3]),
            mix_channel(old_px[2], color[2], color[3]),
            add_alpha(old_px[3], color[3]),
        ]
    }
}

/// The cells of a canvas of this size can be held in memory: at four bytes
/// each they take no more than `isize::MAX` bytes, the most that one
/// allocation holds.
pub open spec fn size_fits(width: nat, height: nat) -> bool {
    4 * (width * height) <= isize::MAX
}

/// Mathematical model of a canvas.
pub struct GridView {
    pub width: nat,
    pub height: nat,
    pub cells: Seq<[u8; 4]>,
}

impl GridView {
    /// The cell sequence holds exactly one pixel per coordinate.
    pub open spec fn wf(self) -> bool {
        self.cells.len() == self.width * self.height
    }

    /// The cells can be held in memory: see `size_fits`.
    pub open spec fn fits(self) -> bool {
        4 * self.cells.len() <= isize::MAX
    }

    pub open spec fn in_bounds(self, x: int, y: int) -> bool {
        0 <= x < self.width && 0 <= y < self.height
    }

    /// Position of `(x, y)` in the row-major cell sequence.
    pub open spec fn offset(self, x: int, y: int) -> int {
        y * self.width + x
    }

    pub open spec fn pixel(self, x: int, y: int) -> [u8; 4]
        recommends
            self.in_bounds(x, y),
    {
        self.cells[self.offset(x, y)]
    }

    /// A canvas of the given size with every cell transparent.
    pub open spec fn blank(width: nat, height: nat) -> GridView {
        GridView { width, height, cells: Seq::new(width * height, |i: int| transparent()) }
    }

    /// The canvas after painting `color` at `(x, y)`; unchanged when the
    /// coordinate lies outside.
    pub open spec fn set(self, x: int, y: int, color: [u8; 4]) -> GridView {
        if self.in_bounds(x, y) {
            GridView {
                cells: self.cells.update(
                    self.offset(x, y),
                    composite(self.pixel(x, y), color),
                ),
                ..self
            }
        } else {
            self
        }
    }

    /// The canvas with the cell at `(x, y)` made transparent.
    pub open spec fn erase(self, x: int, y: int) -> GridView
        recommends
            self.in_bounds(x, y),
    {
        GridView { cells: self.cells.update(self.offset(x, y), transparent()), ..self }
    }

    /// The canvas with every cell made transparent.
    pub open spec fn clear(self) -> GridView {
        GridView { cells: Seq::new(self.cells.len(), |i: int| transparent()), ..self }
    }

    /// The pixel at `(x, y)` after a resize: the old pixel where the old canvas
    /// had one, transparent elsewhere.
    pub open spec fn pixel_or_transparent(self, x: int, y: int) -> [u8; 4] {
        if self.in_bounds(x, y) {
            self.pixel(x, y)
        } else {
            transparent()
        }
    }

    /// The canvas cropped or padded to `width` x `height`, anchored at the
    /// top-left corner.
    pub open spec fn resize(self, width: nat, height: nat) -> GridView {
        GridView {
            width,
            height,
            cells: Seq::new(
                width * height,
                |i: int| self.pixel_or_transparent(i % (width as int), i / (width as int)),
            ),
        }
    }
}

/// A cell inside the bounds has its offset inside the cell sequence, and
/// the offset determines the cell.
pub proof fn lemma_offset_in_range(width: nat, height: nat, x: int, y: int)
    requires
        0 <= x < width,
        0 <= y < height,
    ensures
        0 <= y * width + x < width * height,
        (y * width + x) % (width as int) == x,
        (y * width + x) / (width as int) == y,
{
    let w = width as int;
    assert(y * w + x < w * height) by (nonlinear_arith)
        requires
            0 <= x < w,
            0 <= y < height,
    ;
    assert(0 <= y * w + x) by (nonlinear_arith)
        requires
            0 <= x,
            0 <= y,
            0 < w,
    ;
    vstd::arithmetic::div_mod::lemma_fundamental_div_mod_converse(y * w + x, w, y, x);
}

/// Every offset into the cell sequence belongs to exactly one cell inside
/// the bounds.
pub proof fn lemma_offset_to_cell(width: nat, height: nat, i: int)
    requires
        0 <= i < width * height,
    ensures
        0 <= i % (width as int) < width,
        0 <= i / (width as int) < height,
        (i / (width as int)) * width + i % (width as int) == i,
{
    let w = width as int;
    assert(w > 0) by (nonlinear_arith)
        requires
            0 <= i < w * height,
            w >= 0,
    ;
    vstd::arithmetic::div_mod::lemma_fundamental_div_mod(i, w);
    vstd::arithmetic::div_mod::lemma_mod_bound(i, w);
    let q = i / w;
    let r = i % w;
    assert(i == w * q + r);
    assert(q * w == w * q) by (nonlinear_arith);
    assert(0 <= q < height) by (nonlinear_arith)
        requires
            i == w * q + r,
            0 <= r < w,
            0 <= i < w * height,
    ;
}

/// Two canvases of one size that agree on every pixel are the same canvas.
pub proof fn lemma_same_pixels(a: GridView, b: GridView)
    requires
        a.wf(),
        b.wf(),
        a.width == b.width,
        a.height == b.height,
        forall|x: int, y: int| a.in_bounds(x, y) ==> a.pixel(x, y) == b.pixel(x, y),
    ensures
        a == b,
{
    assert forall|i: int| 0 <= i < a.cells.len() implies a.cells[i] == b.cells[i] by {
        lemma_offset_to_cell(a.width, a.height, i);
        let x = i % (a.width as int);
        let y = i / (a.width as int);
        assert(a.in_bounds(x, y));
        assert(a.pixel(x, y) == b.pixel(x, y));
    }
    assert(a.cells =~= b.cells);
}

/// A resized canvas is a valid canvas of the new size, and each of its
/// pixels is the old one where there was one and transparent elsewhere.
pub proof fn lemma_resize_pixels(canvas: GridView, width: nat, height: nat)
    ensures
        canvas.resize(width, height).wf(),
        canvas.resize(width, height).width == width,
        canvas.resize(width, height).height == height,
        forall|x: int, y: int|
            0 <= x < width && 0 <= y < height ==> #[trigger] canvas.resize(width, height).pixel(
                x,
                y,
            ) == canvas.pixel_or_transparent(x, y),
{
    assert forall|x: int, y: int| 0 <= x < width && 0 <= y < height implies #[trigger] canvas.resize(
        width,
        height,
    ).pixel(x, y) == canvas.pixel_or_transparent(x, y) by {
        lemma_offset_in_range(width, height, x, y);
    }
}

/// Resizing to the size a canvas already has changes nothing.
pub proof fn lemma_resize_same_size(canvas: GridView)
    requires
        canvas.wf(),
    ensures
        canvas.resize(canvas.width, canvas.height) == canvas,
{
    lemma_resize_pixels(canvas, canvas.width, canvas.height);
    lemma_same_pixels(canvas.resize(canvas.width, canvas.height), canvas);
}

/// Replacing the cell at `(x, y)` leaves every other pixel as it was.
proof fn lemma_other_cells_kept(before: GridView, after: GridView, x: int, y: int)
    requires
        before.wf(),
        before.in_bounds(x, y),
        after.width == before.width,
        after.height == before.height,
        after.cells == before.cells.update(before.offset(x, y), after.pixel(x, y)),
    ensures
        forall|i: int, j: int|
            before.in_bounds(i, j) && !(i == x && j == y) ==> after.pixel(i, j) == before.pixel(
                i,
                j,
            ),
{
    lemma_offset_in_range(before.width, before.height, x, y);
    assert forall|i: int, j: int| before.in_bounds(i, j) && !(i == x && j == y) implies after.pixel(
        i,
        j,
    ) == before.pixel(i, j) by {
        lemma_offset_in_range(before.width, before.height, i, j);
    }
}

/// A coordinate that does not lie on the canvas it was used with.
#[derive(Debug, Clone, Copy, PartialEq, Eq)]
pub struct OutOfBounds {
    pub x: usize,
    pub y: usize,
}

/// The pixel canvas. `cells` holds the pixels row by row, so the pixel at
/// `(x, y)` stands at index `y * width + x`.
pub struct Grid {
    pub width: usize,
    pub height: usize,
    pub cells: Vec<[u8; 4]>,
}

impl View for Grid {
    type V = GridView;

    open spec fn view(&self) -> GridView {
        GridView { width: self.width as nat, height: self.height as nat, cells: self.cells@ }
    }
}

impl Clone for Grid {
    /// An independent copy: same size, same pixels.
    fn clone(&self) -> (res: Self)
        ensures
            res@ == self@,
    {
        let cells = self.cells.clone();
        proof {
            assert forall|i: int| 0 <= i < self.cells@.len() implies cells@[i] == self.cells@[i] by {
                assert(cloned::<[u8; 4]>(self.cells@[i], cells@[i]));
            }
            assert(cells@ =~= self.cells@);
        }
        Grid { width: self.width, height: self.height, cells }
    }
}

fn mix(old_c: u8, new_c: u8, a: u8) -> (r: u8)
    ensures
        r == mix_channel(old_c, new_c, a),
{
    proof {
        assert(0 <= old_c as int * (255 - a as int) <= 255 * (255 - a as int)) by (nonlinear_arith)
            requires
                0 <= old_c <= 255,
                0 <= a <= 255,
        ;
        assert(0 <= new_c as int * a as int <= 255 * a as int) by (nonlinear_arith)
            requires
                0 <= new_c <= 255,
                0 <= a <= 255,
        ;
    }
    let weighted: u16 = old_c as u16 * (255 - a as u16) + new_c as u16 * a as u16;
    (weighted / 255) as u8
}

impl Grid {
    /// The invariant of a canvas: one cell per coordinate, and no more
    /// cells than memory holds.
    pub open spec fn wf(&self) -> bool {
        self@.wf() && self@.fits()
    }

    /// Whether a canvas of the given size can be made: see `size_fits`.
    pub fn can_hold(width: usize, height: usize) -> (ok: bool)
        ensures
            ok == size_fits(width as nat, height as nat),
    {
        match width.checked_mul(height) {
            Some(count) => count <= isize::MAX as usize / 4,
            None => false,
        }
    }

    /// A transparent canvas of the given size, which has to be one that
    /// memory holds.
    pub fn new(width: usize, height: usize) -> (res: Self)
        requires
            size_fits(width as nat, height as nat),
        ensures
            res.wf(),
            res@ == GridView::blank(width as nat, height as nat),
    {
        let cells = vec![[0u8, 0u8, 0u8, 0u8]; width * height];
        proof {
            assert forall|i: int| 0 <= i < cells@.len() implies cells@[i] == transparent() by {
                assert(cloned::<[u8; 4]>([0u8, 0u8, 0u8, 0u8], cells@[i]));
                assert(cells@[i] =~= transparent());
            }
            assert(cells@ =~= GridView::blank(width as nat, height as nat).cells);
        }
        Grid { width, height, cells }
    }

    /// Whether the canvas holds one cell per coordinate: the test to make
    /// on a canvas that was put together from its fields.
    pub fn is_wf(&self) -> (ok: bool)
        ensures
            ok == self.wf(),
    {
        assert(self.cells@.len() == self.cells.len());
        match self.width.checked_mul(self.height) {
            Some(count) => count == self.cells.len() && count <= isize::MAX as usize / 4,
            None => false,
        }
    }

    /// A canvas of the given size over the given cells, where there is
    /// exactly one cell per coordinate; `None` otherwise.
    pub fn from_cells(width: usize, height: usize, cells: Vec<[u8; 4]>) -> (res: Option<Self>)
        ensures
            match res {
                Some(grid) => {
                    &&& grid.wf()
                    &&& grid.width == width
                    &&& grid.height == height
                    &&& grid.cells == cells
                },
                None => cells@.len() != width * height || !size_fits(width as nat, height as nat),
            },
    {
        let fits = match width.checked_mul(height) {
            Some(count) => count == cells.len() && count <= isize::MAX as usize / 4,
            None => false,
        };
        if fits {
            Some(Grid { width, height, cells })
        } else {
            assert(cells@.len() == cells.len());
            None
        }
    }

    /// Index of the cell at `(x, y)` in `cells`.
    fn offset_of(&self, x: usize, y: usize) -> (at: usize)
        requires
            self.wf(),
            x < self.width,
            y < self.height,
        ensures
            at == self@.offset(x as int, y as int),
            at < self.cells@.len(),
    {
        proof {
            lemma_offset_in_range(self.width as nat, self.height as nat, x as int, y as int);
            assert(0 <= y * self.width <= y * self.width + x);
            assert(self.cells@.len() == self.cells.len());
        }
        y * self.width + x
    }

    /// Get the cell color at the given coordinates, which have to lie on
    /// the canvas: see `try_get` for coordinates that may not.
    ///
    /// No coordinate is brought into range, and a column past the edge is
    /// not read from the next row: called from code that is not verified
    /// with coordinates outside the canvas, this stops the program.
    pub fn get(&self, x: usize, y: usize) -> (px: [u8; 4])
        requires
            self.wf(),
            x < self.width,
            y < self.height,
        ensures
            px == self@.pixel(x as int, y as int),
    {
        runtime_assert(x < self.width && y < self.height);
        let at = self.offset_of(x, y);
        self.cells[at]
    }

    /// Get the cell color at the given coordinates, or the coordinates back
    /// as an error where they lie outside the canvas. No coordinate is
    /// brought into range.
    pub fn try_get(&self, x: usize, y: usize) -> (r: Result<[u8; 4], OutOfBounds>)
        requires
            self.wf(),
        ensures
            r is Err <==> x >= self.width || y >= self.height,
            match r {
                Ok(px) => px == self@.pixel(x as int, y as int),
                Err(at) => at == (OutOfBounds { x, y }),
            },
    {
        if x < self.width && y < self.height {
            Ok(self.get(x, y))
        } else {
            Err(OutOfBounds { x, y })
        }
    }

    /// Set the cell color at the given coordinates.
    ///
    /// Nothing happens outside the canvas or with a transparent colour. An
    /// opaque colour replaces the pixel; any other is composited over it.
    pub fn set(&mut self, x: usize, y: usize, color: [u8; 4])
        requires
            old(self).wf(),
        ensures
            final(self).wf(),
            final(self)@ == old(self)@.set(x as int, y as int, color),
            x >= old(self).width || y >= old(self).height || color[3] == 0 ==> final(self)@ == old(
                self,
            )@,
            x < old(self).width && y < old(self).height && color[3] == 255 ==> final(self)@.pixel(
                x as int,
                y as int,
            ) == color,
            final(self)@.width == old(self)@.width,
            final(self)@.height == old(self)@.height,
            forall|i: int, j: int|
                old(self)@.in_bounds(i, j) && !(i == x && j == y) ==> final(self)@.pixel(i, j)
                    == old(self)@.pixel(i, j),
    {
        if x >= self.width || y >= self.height || color[3] == 0 {
            proof {
                if x < self.width && y < self.height {
                    lemma_offset_in_range(self@.width, self@.height, x as int, y as int);
                    assert(self@.set(x as int, y as int, color).cells =~= self@.cells);
                }
            }
            return ;
        }
        let at = self.offset_of(x, y);
        if color[3] == 255 {
            self.cells[at] = color;
        } else {
            let old_color = self.cells[at];
            let new_color: [u8; 4] = [
                mix(old_color[0], color[0], color[3]),
                mix(old_color[1], color[1], color[3]),
                mix(old_color[2], color[2], color[3]),
                old_color[3].saturating_add(color[3]),
            ];
            assert(new_color =~= composite(old_color, color));
            self.cells[at] = new_color;
        }
        proof {
            lemma_other_cells_kept(old(self)@, self@, x as int, y as int);
        }
    }

    /// Erase the cell at the given coordinates, whatever it held. The
    /// coordinates have to lie on the canvas: see `try_erase` for
    /// coordinates that may not.
    ///
    /// Called from code that is not verified with coordinates outside the
    /// canvas, this stops the program before any cell is touched.
    pub fn erase(&mut self, x: usize, y: usize)
        requires
            old(self).wf(),
            x < old(self).width,
            y < old(self).height,
        ensures
            final(self).wf(),
            final(self)@ == old(self)@.erase(x as int, y as int),
            final(self)@.pixel(x as int, y as int) == transparent(),
            forall|i: int, j: int|
                old(self)@.in_bounds(i, j) && !(i == x && j == y) ==> final(self)@.pixel(i, j)
                    == old(self)@.pixel(i, j),
    {
        runtime_assert(x < self.width && y < self.height);
        let at = self.offset_of(x, y);
        let blank: [u8; 4] = [0, 0, 0, 0];
        assert(blank =~= transparent());
        self.cells[at] = blank;
        proof {
            lemma_other_cells_kept(old(self)@, self@, x as int, y as int);
        }
    }

    /// Erase the cell at the given coordinates, or hand the coordinates
    /// back as an error and leave the canvas as it is where they lie
    /// outside it.
    pub fn try_erase(&mut self, x: usize, y: usize) -> (r: Result<(), OutOfBounds>)
        requires
            old(self).wf(),
        ensures
            final(self).wf(),
            r is Err <==> x >= old(self).width || y >= old(self).height,
            match r {
                Ok(_) => final(self)@ == old(self)@.erase(x as int, y as int),
                Err(at) => at == (OutOfBounds { x, y }) && final(self)@ == old(self)@,
            },
    {
        if x < self.width && y < self.height {
            self.erase(x, y);
            Ok(())
        } else {
            Err(OutOfBounds { x, y })
        }
    }

    /// Clear all cells (set all cells to transparent).
    pub fn clear(&mut self)
        requires
            old(self).wf(),
        ensures
            final(self).wf(),
            final(self)@ == old(self)@.clear(),
            final(self)@ == GridView::blank(old(self)@.width, old(self)@.height),
            forall|i: int| 0 <= i < final(self)@.cells.len() ==> final(self)@.cells[i] == transparent(),
    {
        let len = self.cells.len();
        let blank: [u8; 4] = [0, 0, 0, 0];
        assert(blank =~= transparent());
        let mut i: usize = 0;
        while i < len
            invariant
                i <= len,
                len == self.cells@.len(),
                blank == transparent(),
                self.width == old(self).width,
                self.height == old(self).height,
                self.cells@.len() == old(self).cells@.len(),
                forall|k: int| 0 <= k < i ==> self.cells@[k] == transparent(),
            decreases len - i,
        {
            self.cells[i] = blank;
            i += 1;
        }
        assert(self@.cells =~= old(self)@.clear().cells);
        assert(self@.cells =~= GridView::blank(old(self)@.width, old(self)@.height).cells);
    }

    /// Replace with another grid: size and pixels are copied over.
    pub fn replace(&mut self, grid: &Grid)
        ensures
            final(self)@ == grid@,
    {
        let copy = grid.clone();
        self.width = copy.width;
        self.height = copy.height;
        self.cells = copy.cells;
    }

    /// Resize to `new_width` x `new_height`, anchored at the top-left corner.
    ///
    /// Pixels inside both the old and the new bounds stay where they are,
    /// newly exposed cells are transparent, and what lies outside the new
    /// bounds is dropped.
    pub fn resize(&mut self, new_width: usize, new_height: usize)
        requires
            old(self).wf(),
            size_fits(new_width as nat, new_height as nat),
        ensures
            final(self).wf(),
            final(self)@ == old(self)@.resize(new_width as nat, new_height as nat),
            final(self)@.width == new_width,
            final(self)@.height == new_height,
            forall|x: int, y: int|
                0 <= x < new_width && 0 <= y < new_height ==> #[trigger] final(self)@.pixel(x, y)
                    == old(self)@.pixel_or_transparent(x, y),
    {
        let mut cells: Vec<[u8; 4]> = Vec::with_capacity(new_width * new_height);
        let mut y: usize = 0;
        while y < new_height
            invariant
                self.wf(),
                y <= new_height,
                size_fits(new_width as nat, new_height as nat),
                cells@.len() == y * new_width,
                forall|i: int|
                    0 <= i < cells@.len() ==> cells@[i] == self@.pixel_or_transparent(
                        i % (new_width as int),
                        i / (new_width as int),
                    ),
            decreases new_height - y,
        {
            let mut x: usize = 0;
            while x < new_width
                invariant
                    self.wf(),
                    x <= new_width,
                    y < new_height,
                    size_fits(new_width as nat, new_height as nat),
                    cells@.len() == y * new_width + x,
                    forall|i: int|
                        0 <= i < cells@.len() ==> cells@[i] == self@.pixel_or_transparent(
                            i % (new_width as int),
                            i / (new_width as int),
                        ),
                decreases new_width - x,
            {
                let px: [u8; 4] = if x < self.width && y < self.height {
                    self.get(x, y)
                } else {
                    let blank: [u8; 4] = [0, 0, 0, 0];
                    assert(blank =~= transparent());
                    blank
                };
                proof {
                    lemma_offset_in_range(new_width as nat, new_height as nat, x as int, y as int);
                }
                cells.push(px);
                x += 1;
            }
            assert(y * new_width + new_width == (y + 1) * new_width) by (nonlinear_arith);
            y += 1;
        }
        proof {
            assert(new_height * new_width == new_width * new_height) by (nonlinear_arith);
            assert(cells@ =~= self@.resize(new_width as nat, new_height as nat).cells);
        }
        self.width = new_width;
        self.height = new_height;
        self.cells = cells;
        proof {
            assert forall|x: int, y: int| 0 <= x < new_width && 0 <= y < new_height implies
                #[trigger] self@.pixel(x, y) == old(self)@.pixel_or_transparent(x, y) by {
                lemma_offset_in_range(new_width as nat, new_height as nat, x, y);
            }
        }
    }
}

} // verus!
