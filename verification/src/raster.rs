//! The framebuffer: which pixel shows which cell, and in what colour.

use crate::cell::Cell;
use crate::torus::{cell_index, lemma_cell_index, lemma_index_cell};
use crate::universe::{lemma_area_bounds, Universe, UniverseView};
use vstd::arithmetic::div_mod::{lemma_fundamental_div_mod, lemma_fundamental_div_mod_converse};
use vstd::prelude::*;

verus! {

/// Colour of a dead cell: opaque black.
pub const DEAD_COLOUR: u32 = 0xFF00_0000;

/// Colour of the framebuffer before anything is painted.
pub const BLANK_COLOUR: u32 = 0xFFCC_CCCC;

/// Colour of a live cell at `(x, y)`, as packed `0xAARRGGBB`: opaque, with
/// red rising from left to right, green falling from left to right and
/// blue rising from top to bottom.
pub open spec fn alive_colour(width: int, height: int, x: int, y: int) -> u32 {
    let blue = (y * 0xFF / height) as u32;
    let green = ((width - x) * 0xB0 / width) as u32;
    let red = (x * 0xFF / width) as u32;
    0xFF00_0000u32 | blue | (green << 8) | (red << 16)
}

/// Colour in which cell `(x, y)` is shown when it has state `cell`.
pub open spec fn cell_colour(cell: Cell, width: int, height: int, x: int, y: int) -> u32 {
    if cell == Cell::Alive {
        alive_colour(width, height, x, y)
    } else {
        DEAD_COLOUR
    }
}

/// Framebuffer index of the pixel in column `i` and row `j` of the block
/// that shows cell `(x, y)`.
pub open spec fn pixel_index(width: int, cell_size: int, x: int, y: int, i: int, j: int) -> int {
    (y * cell_size + j) * (width * cell_size) + (x * cell_size + i)
}

/// The framebuffer that shows `cells`: `width * cell_size` pixels wide and
/// `height * cell_size` pixels high, each cell a square of its colour.
pub open spec fn painted(cells: Seq<Cell>, width: int, height: int, cell_size: int) -> Seq<u32> {
    Seq::new(
        (width * height * cell_size * cell_size) as nat,
        |p: int|
            {
                let x = (p % (width * cell_size)) / cell_size;
                let y = (p / (width * cell_size)) / cell_size;
                cell_colour(cells[cell_index(width, x, y)], width, height, x, y)
            },
    )
}

/// Number of cells among the first `k` whose block does not show the
/// colour of the cell, judged by the block's top left pixel.
pub open spec fn stale_blocks(
    pixels: Seq<u32>,
    cells: Seq<Cell>,
    width: int,
    height: int,
    cell_size: int,
    k: int,
) -> int
    decreases k,
{
    if k <= 0 {
        0
    } else {
        let x = (k - 1) % width;
        let y = (k - 1) / width;
        stale_blocks(pixels, cells, width, height, cell_size, k - 1) + if pixels[pixel_index(
            width,
            cell_size,
            x,
            y,
            0,
            0,
        )] != cell_colour(cells[k - 1], width, height, x, y) {
            1int
        } else {
            0int
        }
    }
}

/// A pixel of a block inside the grid lies inside the framebuffer, and its
/// index determines the cell and the place within the block.
pub proof fn lemma_pixel_index(
    width: int,
    height: int,
    cell_size: int,
    x: int,
    y: int,
    i: int,
    j: int,
)
    requires
        0 <= x < width,
        0 <= y < height,
        0 <= i < cell_size,
        0 <= j < cell_size,
    ensures
        0 <= x * cell_size + i < width * cell_size,
        0 <= y * cell_size + j < height * cell_size,
        0 <= pixel_index(width, cell_size, x, y, i, j) < width * height * cell_size * cell_size,
        pixel_index(width, cell_size, x, y, i, j) % (width * cell_size) == x * cell_size + i,
        pixel_index(width, cell_size, x, y, i, j) / (width * cell_size) == y * cell_size + j,
        (x * cell_size + i) / cell_size == x,
        (x * cell_size + i) % cell_size == i,
        (y * cell_size + j) / cell_size == y,
        (y * cell_size + j) % cell_size == j,
{
    let col = x * cell_size + i;
    let row = y * cell_size + j;
    let stride = width * cell_size;
    assert(0 <= col < stride) by (nonlinear_arith)
        requires
            0 <= x < width,
            0 <= i < cell_size,
            col == x * cell_size + i,
            stride == width * cell_size,
    ;
    assert(0 <= row < height * cell_size) by (nonlinear_arith)
        requires
            0 <= y < height,
            0 <= j < cell_size,
            row == y * cell_size + j,
    ;
    assert(0 <= row * stride + col < width * height * cell_size * cell_size) by (nonlinear_arith)
        requires
            0 <= col < stride,
            0 <= row < height * cell_size,
            stride == width * cell_size,
    ;
    lemma_fundamental_div_mod_converse(row * stride + col, stride, row, col);
    lemma_fundamental_div_mod_converse(col, cell_size, x, i);
    lemma_fundamental_div_mod_converse(row, cell_size, y, j);
}

/// Every pixel of the framebuffer belongs to the block of one cell inside
/// the grid.
pub proof fn lemma_pixel_cell(width: int, height: int, cell_size: int, p: int)
    requires
        0 < width,
        0 < height,
        0 < cell_size,
        0 <= p < width * height * cell_size * cell_size,
    ensures
        ({
            let col = p % (width * cell_size);
            let row = p / (width * cell_size);
            &&& 0 <= col / cell_size < width
            &&& 0 <= row / cell_size < height
            &&& 0 <= col % cell_size < cell_size
            &&& 0 <= row % cell_size < cell_size
            &&& pixel_index(
                width,
                cell_size,
                col / cell_size,
                row / cell_size,
                col % cell_size,
                row % cell_size,
            ) == p
        }),
{
    let stride = width * cell_size;
    let rows = height * cell_size;
    assert(0 < stride && 0 < rows && rows * stride == width * height * cell_size * cell_size)
        by (nonlinear_arith)
        requires
            0 < width,
            0 < height,
            0 < cell_size,
            stride == width * cell_size,
            rows == height * cell_size,
    ;
    let col = p % stride;
    let row = p / stride;
    assert(0 <= col < stride && 0 <= row < rows && row * stride + col == p) by (nonlinear_arith)
        requires
            0 < stride,
            0 <= p < rows * stride,
            col == p % stride,
            row == p / stride,
    ;
    assert(0 <= col / cell_size < width && 0 <= col % cell_size < cell_size && (col / cell_size)
        * cell_size + col % cell_size == col) by (nonlinear_arith)
        requires
            0 < cell_size,
            0 <= col < width * cell_size,
    ;
    assert(0 <= row / cell_size < height && 0 <= row % cell_size < cell_size && (row / cell_size)
        * cell_size + row % cell_size == row) by (nonlinear_arith)
        requires
            0 < cell_size,
            0 <= row < height * cell_size,
    ;
}

/// Computes the colour of a live cell at `(x, y)`.
pub(crate) fn alive_colour_at(width: u32, height: u32, x: u32, y: u32) -> (colour: u32)
    requires
        x < width,
        y < height,
    ensures
        colour == alive_colour(width as int, height as int, x as int, y as int),
{
    assert(y * 0xFF / (height as int) < 0xFF) by (nonlinear_arith)
        requires
            0 <= y < height,
    ;
    assert(0 <= (width - x) * 0xB0 / (width as int) <= 0xB0) by (nonlinear_arith)
        requires
            0 <= x < width,
    ;
    assert(x * 0xFF / (width as int) < 0xFF) by (nonlinear_arith)
        requires
            0 <= x < width,
    ;
    let blue = ((y as u64 * 0xFF) / (height as u64)) as u32;
    let green = (((width - x) as u64 * 0xB0) / (width as u64)) as u32;
    let red = ((x as u64 * 0xFF) / (width as u64)) as u32;
    0xFF00_0000u32 | blue | (green << 8) | (red << 16)
}

/// A row or column of pixels lies within the block of one cell only.
pub proof fn lemma_block_range(cell_size: int, a: int, b: int, r: int)
    requires
        0 < cell_size,
        0 <= r < cell_size,
    ensures
        (a * cell_size <= b * cell_size + r < a * cell_size + cell_size) <==> a == b,
{
    assert((a * cell_size <= b * cell_size + r < a * cell_size + cell_size) <==> a == b)
        by (nonlinear_arith)
        requires
            0 < cell_size,
            0 <= r < cell_size,
    ;
}

/// No more blocks are stale than have been looked at.
pub proof fn lemma_stale_blocks_bounds(
    pixels: Seq<u32>,
    cells: Seq<Cell>,
    width: int,
    height: int,
    cell_size: int,
    k: int,
)
    requires
        0 <= k,
    ensures
        0 <= stale_blocks(pixels, cells, width, height, cell_size, k) <= k,
    decreases k,
{
    if k > 0 {
        lemma_stale_blocks_bounds(pixels, cells, width, height, cell_size, k - 1);
    }
}

/// Whether the fill of the block of cell `(x, y)`, going through the block
/// row by row, has reached pixel `p` once it has done `j` rows and `i`
/// pixels of the next.
pub open spec fn filled(stride: int, cell_size: int, x: int, y: int, j: int, i: int, p: int) -> bool {
    let row = p / stride;
    let col = p % stride;
    &&& x * cell_size <= col < x * cell_size + cell_size
    &&& y * cell_size <= row
    &&& row < y * cell_size + j || (row == y * cell_size + j && col < x * cell_size + i)
}

impl UniverseView {
    /// Number of cells whose block does not show the colour of the cell.
    pub open spec fn stale(self) -> int {
        stale_blocks(
            self.pixels,
            self.cells,
            self.width,
            self.height,
            self.cell_size,
            self.width * self.height,
        )
    }

    /// This universe with the framebuffer brought up to date.
    pub open spec fn rendered(self) -> UniverseView {
        UniverseView {
            pixels: painted(self.cells, self.width, self.height, self.cell_size),
            ..self
        }
    }
}

impl Universe {
    /// A repaint that started from `before` has dealt with the first `k`
    /// cells: their blocks show their colours, the other blocks are as they
    /// were.
    pub(crate) open spec fn repainting(&self, before: Universe, k: int) -> bool {
        &&& self.well_shaped()
        &&& *self == (Universe { canvas: self.canvas, ..before })
        &&& forall|x: int, y: int, i: int, j: int|
            0 <= x < self.width && 0 <= y < self.height && 0 <= i < self.cell_size && 0 <= j
                < self.cell_size ==> self.canvas@[#[trigger] pixel_index(
                self.width as int,
                self.cell_size as int,
                x,
                y,
                i,
                j,
            )] == if cell_index(self.width as int, x, y) < k {
                cell_colour(
                    self.cells@[cell_index(self.width as int, x, y)],
                    self.width as int,
                    self.height as int,
                    x,
                    y,
                )
            } else {
                before.canvas@[pixel_index(self.width as int, self.cell_size as int, x, y, i, j)]
            }
    }

    /// Fills the block that shows cell `(x, y)` with `colour`.
    pub(crate) fn fill_block(&mut self, x: u32, y: u32, colour: u32)
        requires
            old(self).well_shaped(),
            x < old(self).width,
            y < old(self).height,
        ensures
            final(self).well_shaped(),
            *final(self) == (Universe { canvas: final(self).canvas, ..*old(self) }),
            forall|x2: int, y2: int, i: int, j: int|
                0 <= x2 < old(self).width && 0 <= y2 < old(self).height
                    && 0 <= i < old(self).cell_size && 0 <= j < old(self).cell_size
                    ==> final(self).canvas@[#[trigger] pixel_index(
                    old(self).width as int,
                    old(self).cell_size as int,
                    x2,
                    y2,
                    i,
                    j,
                )] == if x2 == x && y2 == y {
                    colour
                } else {
                    old(self).canvas@[pixel_index(
                        old(self).width as int,
                        old(self).cell_size as int,
                        x2,
                        y2,
                        i,
                        j,
                    )]
                },
    {
        let ghost w = self.width as int;
        let ghost h = self.height as int;
        let ghost s = self.cell_size as int;
        let ghost stride = w * s;
        proof {
            lemma_area_bounds(w, h, s);
        }
        let cell_size = self.cell_size;
        let canvas_width = self.width * self.cell_size;
        let mut j: u32 = 0;
        while j < cell_size
            invariant
                self.well_shaped(),
                *self == (Universe { canvas: self.canvas, ..*old(self) }),
                w == self.width,
                h == self.height,
                s == self.cell_size,
                cell_size == self.cell_size,
                stride == w * s,
                canvas_width == stride,
                x < w,
                y < h,
                j <= cell_size,
                forall|p: int|
                    0 <= p < self.canvas@.len() ==> #[trigger] self.canvas@[p] == if filled(
                        stride,
                        s,
                        x as int,
                        y as int,
                        j as int,
                        0,
                        p,
                    ) {
                        colour
                    } else {
                        old(self).canvas@[p]
                    },
            decreases cell_size - j,
        {
            let mut i: u32 = 0;
            while i < cell_size
                invariant
                    self.well_shaped(),
                    *self == (Universe { canvas: self.canvas, ..*old(self) }),
                    w == self.width,
                    h == self.height,
                    s == self.cell_size,
                    cell_size == self.cell_size,
                    stride == w * s,
                    canvas_width == stride,
                    x < w,
                    y < h,
                    j < cell_size,
                    i <= cell_size,
                    forall|p: int|
                        0 <= p < self.canvas@.len() ==> #[trigger] self.canvas@[p] == if filled(
                            stride,
                            s,
                            x as int,
                            y as int,
                            j as int,
                            i as int,
                            p,
                        ) {
                            colour
                        } else {
                            old(self).canvas@[p]
                        },
                decreases cell_size - i,
            {
                proof {
                    lemma_pixel_index(w, h, s, x as int, y as int, i as int, j as int);
                    lemma_area_bounds(w, h, s);
                    assert(0 <= y * s <= y * s + j && 0 <= x * s <= x * s + i) by (nonlinear_arith)
                        requires
                            0 <= y,
                            0 <= x,
                            0 <= s,
                            0 <= j,
                            0 <= i,
                    ;
                    assert(0 <= (y * s + j) * stride) by (nonlinear_arith)
                        requires
                            0 <= y * s + j,
                            0 <= stride,
                    ;
                }
                let canvas_y = y * cell_size + j;
                let canvas_x = x * cell_size + i;
                let idx = canvas_y * canvas_width + canvas_x;
                let ghost prior = self.canvas@;
                self.canvas[idx as usize] = colour;
                proof {
                    assert forall|p: int| 0 <= p < self.canvas@.len() implies #[trigger] self.canvas@[p]
                        == if filled(stride, s, x as int, y as int, j as int, i + 1, p) {
                        colour
                    } else {
                        old(self).canvas@[p]
                    } by {
                        lemma_fundamental_div_mod(p, stride);
                        assert(stride * (p / stride) == (p / stride) * stride)
                            by (nonlinear_arith);
                    }
                }
                i += 1;
            }
            proof {
                assert forall|p: int| 0 <= p < self.canvas@.len() implies filled(
                    stride,
                    s,
                    x as int,
                    y as int,
                    j as int,
                    s,
                    p,
                ) == filled(stride, s, x as int, y as int, j + 1, 0, p) by {}
            }
            j += 1;
        }
        proof {
            assert forall|x2: int, y2: int, i: int, j: int|
                0 <= x2 < w && 0 <= y2 < h && 0 <= i < s && 0 <= j < s implies self.canvas@[#[trigger] pixel_index(
                w,
                s,
                x2,
                y2,
                i,
                j,
            )] == if x2 == x && y2 == y {
                colour
            } else {
                old(self).canvas@[pixel_index(w, s, x2, y2, i, j)]
            } by {
                lemma_pixel_index(w, h, s, x2, y2, i, j);
                lemma_block_range(s, x as int, x2, i);
                lemma_block_range(s, y as int, y2, j);
            }
        }
    }

    /// Brings the framebuffer up to date with the grid and returns the
    /// number of blocks that had to be repainted. A block whose top left
    /// pixel already has the colour of its cell is left alone.
    pub fn render(&mut self) -> (repainted: u32)
        requires
            old(self).wf(),
        ensures
            final(self).wf(),
            final(self)@ == old(self)@.rendered(),
            repainted == old(self)@.stale(),
    {
        let ghost w = self.width as int;
        let ghost h = self.height as int;
        let ghost s = self.cell_size as int;
        proof {
            lemma_area_bounds(w, h, s);
        }
        let width = self.width;
        let height = self.height;
        let cell_size = self.cell_size;
        let canvas_width = self.width * self.cell_size;
        let mut repainted: u32 = 0;
        let mut y: u32 = 0;
        while y < height
            invariant
                old(self).wf(),
                w == self.width,
                h == self.height,
                s == self.cell_size,
                width == self.width,
                height == self.height,
                cell_size == self.cell_size,
                canvas_width == w * s,
                y <= height,
                self.repainting(*old(self), y * w),
                repainted == stale_blocks(old(self).canvas@, self.cells@, w, h, s, y * w),
            decreases height - y,
        {
            let mut x: u32 = 0;
            while x < width
                invariant
                    old(self).wf(),
                    w == self.width,
                    h == self.height,
                    s == self.cell_size,
                    width == self.width,
                    height == self.height,
                    cell_size == self.cell_size,
                    canvas_width == w * s,
                    y < height,
                    x <= width,
                    self.repainting(*old(self), y * w + x),
                    repainted == stale_blocks(old(self).canvas@, self.cells@, w, h, s, y * w + x),
                decreases width - x,
            {
                let index = self.index(x, y);
                let alive = self.cells[index] == Cell::Alive;
                let colour = if alive {
                    self.colour_canvas[index]
                } else {
                    DEAD_COLOUR
                };
                proof {
                    lemma_cell_index(w, h, x as int, y as int);
                    lemma_pixel_index(w, h, s, x as int, y as int, 0, 0);
                    lemma_area_bounds(w, h, s);
                    lemma_stale_blocks_bounds(old(self).canvas@, self.cells@, w, h, s, y * w + x);
                    assert(0 <= y * s && 0 <= x * s) by (nonlinear_arith)
                        requires
                            0 <= y,
                            0 <= x,
                            0 <= s,
                    ;
                    assert(0 <= (y * s) * (w * s)) by (nonlinear_arith)
                        requires
                            0 <= y * s,
                            0 <= w * s,
                    ;
                    assert(pixel_index(w, s, x as int, y as int, 0, 0) == (y * s) * (w * s) + x
                        * s);
                }
                let canvas_y = y * cell_size;
                let canvas_x = x * cell_size;
                let idx = canvas_y * canvas_width + canvas_x;
                let ghost prior = *self;
                if colour != self.canvas[idx as usize] {
                    self.fill_block(x, y, colour);
                    repainted += 1;
                }
                proof {
                    assert forall|x2: int, y2: int, i: int, j: int|
                        0 <= x2 < w && 0 <= y2 < h && 0 <= i < s && 0 <= j < s implies self.canvas@[#[trigger] pixel_index(
                        w,
                        s,
                        x2,
                        y2,
                        i,
                        j,
                    )] == if cell_index(w, x2, y2) < y * w + x + 1 {
                        cell_colour(self.cells@[cell_index(w, x2, y2)], w, h, x2, y2)
                    } else {
                        old(self).canvas@[pixel_index(w, s, x2, y2, i, j)]
                    } by {
                        lemma_cell_index(w, h, x2, y2);
                        lemma_pixel_index(w, h, s, x2, y2, i, j);
                        if x2 == x && y2 == y && colour == prior.canvas@[idx as int] {
                            // The block was left alone: it was of one colour,
                            // that of its top left pixel.
                            assert(old(self)@.pixels[pixel_index(
                                old(self)@.width,
                                old(self)@.cell_size,
                                x2,
                                y2,
                                i,
                                j,
                            )] == colour);
                        }
                    }
                }
                x += 1;
            }
            assert(y * w + w == (y + 1) * w) by (nonlinear_arith);
            y += 1;
        }
        proof {
            assert(height * w == w * h) by (nonlinear_arith)
                requires
                    h == height,
            ;
            let target = painted(self.cells@, w, h, s);
            assert forall|p: int| 0 <= p < self.canvas@.len() implies self.canvas@[p]
                == target[p] by {
                lemma_pixel_cell(w, h, s, p);
                let col = p % (w * s);
                let row = p / (w * s);
                lemma_cell_index(w, h, col / s, row / s);
                assert(self.canvas@[pixel_index(w, s, col / s, row / s, col % s, row % s)]
                    == cell_colour(
                    self.cells@[cell_index(w, col / s, row / s)],
                    w,
                    h,
                    col / s,
                    row / s,
                ));
            }
            assert(self.canvas@ =~= target);
            lemma_painted_blocks(self.cells@, w, h, s);
        }
        repainted
    }

    /// Brings the framebuffer up to date with the grid and lends it out:
    /// `width * cell_size` by `height * cell_size` pixels, row by row from
    /// the top left, each packed as `0xAARRGGBB`.
    pub fn canvas(&mut self) -> (pixels: &[u32])
        requires
            old(self).wf(),
        ensures
            final(self).wf(),
            final(self)@ == old(self)@.rendered(),
            pixels@ == final(self)@.pixels,
            pixels@.len() == old(self)@.width * old(self)@.cell_size * old(self)@.height
                * old(self)@.cell_size,
    {
        self.render();
        proof {
            let w = self.width as int;
            let h = self.height as int;
            let s = self.cell_size as int;
            assert(w * s * h * s == w * h * s * s) by (nonlinear_arith);
        }
        self.canvas.as_slice()
    }
}

/// In the framebuffer that shows a grid, every pixel of a block has the
/// colour of the block's cell.
pub proof fn lemma_painted_blocks(cells: Seq<Cell>, width: int, height: int, cell_size: int)
    requires
        0 < width,
        0 < height,
        0 < cell_size,
    ensures
        forall|x: int, y: int, i: int, j: int|
            0 <= x < width && 0 <= y < height && 0 <= i < cell_size && 0 <= j < cell_size
                ==> painted(cells, width, height, cell_size)[#[trigger] pixel_index(
                width,
                cell_size,
                x,
                y,
                i,
                j,
            )] == cell_colour(cells[cell_index(width, x, y)], width, height, x, y),
{
    assert forall|x: int, y: int, i: int, j: int|
        0 <= x < width && 0 <= y < height && 0 <= i < cell_size && 0 <= j
            < cell_size implies painted(cells, width, height, cell_size)[#[trigger] pixel_index(
        width,
        cell_size,
        x,
        y,
        i,
        j,
    )] == cell_colour(cells[cell_index(width, x, y)], width, height, x, y) by {
        lemma_pixel_index(width, height, cell_size, x, y, i, j);
    }
}

/// A framebuffer that shows the grid has no stale block.
pub proof fn lemma_painted_is_clean(
    cells: Seq<Cell>,
    width: int,
    height: int,
    cell_size: int,
    k: int,
)
    requires
        0 < width,
        0 < height,
        0 < cell_size,
        0 <= k <= width * height,
    ensures
        stale_blocks(painted(cells, width, height, cell_size), cells, width, height, cell_size, k)
            == 0,
    decreases k,
{
    if k > 0 {
        lemma_painted_is_clean(cells, width, height, cell_size, k - 1);
        lemma_index_cell(width, height, k - 1);
        lemma_painted_blocks(cells, width, height, cell_size);
        let x = (k - 1) % width;
        let y = (k - 1) / width;
        assert(painted(cells, width, height, cell_size)[pixel_index(width, cell_size, x, y, 0, 0)]
            == cell_colour(cells[cell_index(width, x, y)], width, height, x, y));
    }
}

/// Rendering twice in a row is rendering once: the second call finds no
/// stale block, so it writes no pixel, and leaves the framebuffer as the
/// first call left it.
pub proof fn lemma_render_twice(universe: UniverseView)
    requires
        universe.valid(),
    ensures
        universe.rendered().stale() == 0,
        universe.rendered().rendered() == universe.rendered(),
{
    lemma_area_bounds(universe.width, universe.height, universe.cell_size);
    lemma_painted_is_clean(
        universe.cells,
        universe.width,
        universe.height,
        universe.cell_size,
        universe.width * universe.height,
    );
}

} // verus!
