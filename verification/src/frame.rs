//! The mathematical model of a frame: a grid of pixels with a layer tag, and
//! what drawing a bar into one of its columns does to it.

use crate::height::{bar_len, in_unit_range, lemma_bar_len_bounded};
use crate::pixel::Pixel;
use vstd::arithmetic::div_mod::*;
use vstd::prelude::*;

verus! {

/// A grid of `rows` by `cols` pixels and the layer tag that travels with it.
/// Row 0 is the top of the picture.
pub struct Frame {
    pub rows: nat,
    pub cols: nat,
    pub layer: u8,
    /// The cells row by row, the top row first.
    pub cells: Seq<Pixel>,
}

impl Frame {
    /// The grid holds one pixel for each of its `rows * cols` cells.
    pub open spec fn wf(self) -> bool {
        self.cells.len() == self.rows * self.cols
    }

    /// The pixel in row `row`, column `col`.
    pub open spec fn cell(self, row: int, col: int) -> Pixel
        recommends
            0 <= row < self.rows,
            0 <= col < self.cols,
    {
        self.cells[row * self.cols + col]
    }

    /// The frame whose every cell is `p`.
    pub open spec fn filled(p: Pixel, layer: u8, rows: nat, cols: nat) -> Frame {
        Frame { rows, cols, layer, cells: Seq::new(rows * cols, |i: int| p) }
    }

    /// The pixel that a bar of height `height` and colour `p` puts in row
    /// `row` of its column: `p` in the bottom `bar_len` rows, black above.
    pub open spec fn bar_cell(self, row: int, height: u32, p: Pixel) -> Pixel {
        if row >= self.rows - bar_len(height, self.rows) {
            p
        } else {
            Pixel::black()
        }
    }

    /// The frame after a bar of height `height` and colour `p` was drawn
    /// into column `col`. A column outside the grid, or a height that is no
    /// number from zero to one, leaves the frame as it is.
    pub open spec fn set_col(self, col: int, height: u32, p: Pixel) -> Frame {
        if 0 <= col < self.cols && in_unit_range(height) {
            Frame {
                rows: self.rows,
                cols: self.cols,
                layer: self.layer,
                cells: Seq::new(
                    self.cells.len(),
                    |i: int|
                        if i % (self.cols as int) == col {
                            self.bar_cell(i / (self.cols as int), height, p)
                        } else {
                            self.cells[i]
                        },
                ),
            }
        } else {
            self
        }
    }
}

/// The place of cell (`row`, `col`) in the row-major order lies inside the
/// grid, and row and column can be read back from it.
pub proof fn lemma_cell_index(rows: nat, cols: nat, row: int, col: int)
    requires
        0 <= row < rows,
        0 <= col < cols,
    ensures
        0 <= row * cols + col < rows * cols,
        (row * cols + col) / (cols as int) == row,
        (row * cols + col) % (cols as int) == col,
{
    let r = rows as int;
    let c = cols as int;
    assert(row * c + c <= r * c) by (nonlinear_arith)
        requires
            row + 1 <= r,
            0 <= c,
    ;
    assert(0 <= row * c) by (nonlinear_arith)
        requires
            0 <= row,
            0 <= c,
    ;
    lemma_fundamental_div_mod_converse(row * c + col, c, row, col);
}

/// Every place in the row-major order is the place of one cell of the grid.
pub proof fn lemma_cell_of_index(rows: nat, cols: nat, i: int)
    requires
        0 <= i < rows * cols,
    ensures
        0 <= i / (cols as int) < rows,
        0 <= i % (cols as int) < cols,
        i == (i / (cols as int)) * cols + i % (cols as int),
{
    let c = cols as int;
    assert(c > 0) by (nonlinear_arith)
        requires
            0 <= i < rows * c,
            0 <= c,
    ;
    lemma_fundamental_div_mod(i, c);
    lemma_mod_bound(i, c);
    let q = i / c;
    assert(0 <= q < rows) by (nonlinear_arith)
        requires
            i == c * q + i % c,
            0 <= i % c < c,
            0 <= i < rows * c,
    ;
    assert(c * q == q * c) by (nonlinear_arith);
}

/// Every cell of a filled frame holds the fill colour.
pub proof fn lemma_filled(p: Pixel, layer: u8, rows: nat, cols: nat)
    ensures
        Frame::filled(p, layer, rows, cols).wf(),
        Frame::filled(p, layer, rows, cols).rows == rows,
        Frame::filled(p, layer, rows, cols).cols == cols,
        Frame::filled(p, layer, rows, cols).layer == layer,
        forall|row: int, col: int|
            0 <= row < rows && 0 <= col < cols ==> #[trigger] Frame::filled(
                p,
                layer,
                rows,
                cols,
            ).cell(row, col) == p,
{
    assert forall|row: int, col: int| 0 <= row < rows && 0 <= col < cols implies #[trigger]
    Frame::filled(p, layer, rows, cols).cell(row, col) == p by {
        lemma_cell_index(rows, cols, row, col);
    }
}

/// Drawing a bar keeps the size and the layer tag of the frame. In the
/// column drawn, the bottom `bar_len` rows take the bar's colour and the rows
/// above them turn black; every other column stays as it was.
pub proof fn lemma_set_col_draws_bar(f: Frame, col: int, height: u32, p: Pixel)
    requires
        f.wf(),
        0 <= col < f.cols,
        in_unit_range(height),
    ensures
        f.set_col(col, height, p).wf(),
        f.set_col(col, height, p).rows == f.rows,
        f.set_col(col, height, p).cols == f.cols,
        f.set_col(col, height, p).layer == f.layer,
        bar_len(height, f.rows) <= f.rows,
        forall|row: int|
            f.rows - bar_len(height, f.rows) <= row < f.rows ==> #[trigger] f.set_col(
                col,
                height,
                p,
            ).cell(row, col) == p,
        forall|row: int|
            0 <= row < f.rows - bar_len(height, f.rows) ==> #[trigger] f.set_col(
                col,
                height,
                p,
            ).cell(row, col) == Pixel::black(),
        forall|row: int, other: int|
            0 <= row < f.rows && 0 <= other < f.cols && other != col ==> #[trigger] f.set_col(
                col,
                height,
                p,
            ).cell(row, other) == f.cell(row, other),
{
    let g = f.set_col(col, height, p);
    lemma_bar_len_bounded(height, f.rows);
    assert forall|row: int, c: int| 0 <= row < f.rows && 0 <= c < f.cols implies #[trigger] g.cell(
        row,
        c,
    ) == (if c == col {
        f.bar_cell(row, height, p)
    } else {
        f.cell(row, c)
    }) by {
        lemma_cell_index(f.rows, f.cols, row, c);
    }
}

/// A bar into a column outside the grid, or of a height that is no number
/// from zero to one, changes nothing.
pub proof fn lemma_set_col_rejects(f: Frame, col: int, height: u32, p: Pixel)
    requires
        !(0 <= col < f.cols) || !in_unit_range(height),
    ensures
        f.set_col(col, height, p) == f,
{
}

/// A bar replaces whatever bar its column showed before: nothing of the
/// earlier one is left.
pub proof fn lemma_set_col_overwrites(
    f: Frame,
    col: int,
    earlier_height: u32,
    earlier: Pixel,
    height: u32,
    p: Pixel,
)
    requires
        0 <= col < f.cols,
        in_unit_range(height),
    ensures
        f.set_col(col, earlier_height, earlier).set_col(col, height, p) == f.set_col(
            col,
            height,
            p,
        ),
{
    let once = f.set_col(col, height, p);
    let twice = f.set_col(col, earlier_height, earlier).set_col(col, height, p);
    assert(twice.cells =~= once.cells);
}

/// Drawing the same bar twice gives what drawing it once gives.
pub proof fn lemma_set_col_idempotent(f: Frame, col: int, height: u32, p: Pixel)
    ensures
        f.set_col(col, height, p).set_col(col, height, p) == f.set_col(col, height, p),
{
    if 0 <= col < f.cols && in_unit_range(height) {
        lemma_set_col_overwrites(f, col, height, p, height, p);
    }
}

} // verus!
