//! The pixel map in memory: a frame that is filled once and then redrawn
//! column by column.

use crate::decimal::push_decimal;
use crate::encoding::{MAX_CHANNEL, OFFSET_X, OFFSET_Y};
use crate::frame::{
    lemma_cell_index, lemma_cell_of_index, lemma_filled, lemma_set_col_draws_bar, Frame,
};
use crate::height::{bar_len, bar_rows, in_unit_range};
use crate::pixel::Pixel;
use crate::preview::{push_ascii, push_glyph};
use vstd::prelude::*;

verus! {

/// A pixel map of fixed size with its layer tag. Its view is the [`Frame`]
/// it shows, which is always well formed: the functions that read or change
/// a pixel map say so of its view.
pub struct PPMP6 {
    rows: usize,
    cols: usize,
    layer: u8,
    pixels: Vec<Pixel>,
}

impl View for PPMP6 {
    type V = Frame;

    closed spec fn view(&self) -> Frame {
        Frame {
            rows: self.rows as nat,
            cols: self.cols as nat,
            layer: self.layer,
            cells: self.pixels@,
        }
    }
}

impl PPMP6 {
    #[verifier::type_invariant]
    spec fn sized(&self) -> bool {
        &&& self.rows * self.cols <= usize::MAX
        &&& self.pixels@.len() == self.rows * self.cols
    }

    /// A pixel map of `rows` by `cols` cells, every one of them `p`.
    pub fn new(p: Pixel, layer: u8, rows: usize, cols: usize) -> (f: PPMP6)
        requires
            rows * cols <= usize::MAX,
        ensures
            f@ == Frame::filled(p, layer, rows as nat, cols as nat),
            f@.wf(),
            f@.rows == rows,
            f@.cols == cols,
            f@.layer == layer,
            forall|row: int, col: int|
                0 <= row < rows && 0 <= col < cols ==> #[trigger] f@.cell(row, col) == p,
    {
        let f = PPMP6 { rows, cols, layer, pixels: vec![p; rows * cols] };
        proof {
            assert(f@.cells =~= Frame::filled(p, layer, rows as nat, cols as nat).cells);
            lemma_filled(p, layer, rows as nat, cols as nat);
        }
        f
    }

    /// The number of rows.
    pub fn rows(&self) -> (n: usize)
        ensures
            n == self@.rows,
            self@.wf(),
    {
        proof {
            use_type_invariant(self);
        }
        self.rows
    }

    /// The number of columns.
    pub fn cols(&self) -> (n: usize)
        ensures
            n == self@.cols,
            self@.wf(),
    {
        proof {
            use_type_invariant(self);
        }
        self.cols
    }

    /// The layer tag.
    pub fn layer(&self) -> (tag: u8)
        ensures
            tag == self@.layer,
            self@.wf(),
    {
        proof {
            use_type_invariant(self);
        }
        self.layer
    }

    /// The pixel in row `row`, column `col`, or `None` outside the grid.
    pub fn get(&self, row: usize, col: usize) -> (p: Option<Pixel>)
        ensures
            p == if row < self@.rows && col < self@.cols {
                Some(self@.cell(row as int, col as int))
            } else {
                None
            },
            self@.wf(),
    {
        proof {
            use_type_invariant(self);
        }
        if row < self.rows && col < self.cols {
            proof {
                lemma_cell_index(self@.rows, self@.cols, row as int, col as int);
            }
            Some(self.pixels[row * self.cols + col])
        } else {
            None
        }
    }

    /// Draws a bar into column `col_index`: the bottom `bar_len(height, rows)`
    /// rows of the column take the colour `p`, the rows above them turn
    /// black, and no other column changes. `height` is the bit pattern of a
    /// single-precision number. Where `col_index` is no column of the grid,
    /// or `height` is no number from zero to one, nothing is drawn.
    pub fn set_col(&mut self, col_index: usize, height: u32, p: Pixel)
        ensures
            final(self)@ == old(self)@.set_col(col_index as int, height, p),
            final(self)@.wf(),
            final(self)@.rows == old(self)@.rows,
            final(self)@.cols == old(self)@.cols,
            final(self)@.layer == old(self)@.layer,
            col_index >= old(self)@.cols || !in_unit_range(height) ==> final(self)@ == old(self)@,
            col_index < old(self)@.cols && in_unit_range(height) ==> {
                &&& bar_len(height, old(self)@.rows) <= old(self)@.rows
                &&& forall|row: int|
                    old(self)@.rows - bar_len(height, old(self)@.rows) <= row < old(self)@.rows
                        ==> #[trigger] final(self)@.cell(row, col_index as int) == p
                &&& forall|row: int|
                    0 <= row < old(self)@.rows - bar_len(height, old(self)@.rows)
                        ==> #[trigger] final(self)@.cell(row, col_index as int) == Pixel::black()
                &&& forall|row: int, col: int|
                    0 <= row < old(self)@.rows && 0 <= col < old(self)@.cols && col != col_index
                        ==> #[trigger] final(self)@.cell(row, col) == old(self)@.cell(row, col)
            },
    {
        proof {
            use_type_invariant(&*self);
        }
        if col_index >= self.cols {
            return;
        }
        let bar = match bar_rows(height, self.rows) {
            Some(n) => n,
            None => {
                return;
            },
        };
        let top: usize = self.rows - bar;
        let mut row: usize = 0;
        while row < self.rows
            invariant
                row <= self.rows,
                self.rows == old(self).rows,
                self.cols == old(self).cols,
                self.layer == old(self).layer,
                col_index < self.cols,
                self.rows * self.cols <= usize::MAX,
                self.pixels@.len() == self.rows * self.cols,
                in_unit_range(height),
                top == self.rows - bar_len(height, self.rows as nat),
                forall|i: int|
                    0 <= i < self.pixels@.len() ==> #[trigger] self.pixels@[i] == if i % (
                    self.cols as int) == col_index && i / (self.cols as int) < row {
                        old(self)@.bar_cell(i / (self.cols as int), height, p)
                    } else {
                        old(self).pixels@[i]
                    },
            decreases self.rows - row,
        {
            proof {
                lemma_cell_index(self.rows as nat, self.cols as nat, row as int, col_index as int);
            }
            let index: usize = row * self.cols + col_index;
            self.pixels[index] = if row >= top {
                p
            } else {
                Pixel::black()
            };
            proof {
                assert forall|i: int| 0 <= i < self.pixels@.len() implies #[trigger] self.pixels@[i]
                    == if i % (self.cols as int) == col_index && i / (self.cols as int) < row + 1 {
                    old(self)@.bar_cell(i / (self.cols as int), height, p)
                } else {
                    old(self).pixels@[i]
                } by {
                    lemma_cell_of_index(self.rows as nat, self.cols as nat, i);
                }
            }
            row = row + 1;
        }
        proof {
            let done = old(self)@.set_col(col_index as int, height, p);
            assert forall|i: int| 0 <= i < self.pixels@.len() implies self.pixels@[i]
                == done.cells[i] by {
                lemma_cell_of_index(self.rows as nat, self.cols as nat, i);
            }
            assert(self@.cells =~= done.cells);
            lemma_set_col_draws_bar(old(self)@, col_index as int, height, p);
        }
    }

    /// Appends the four header lines to `writer`.
    pub fn write_headers(&self, writer: &mut Vec<u8>)
        ensures
            final(writer)@ == old(writer)@ + self@.header(),
            self@.wf(),
    {
        proof {
            use_type_invariant(self);
        }
        writer.push('P' as u8);
        writer.push('6' as u8);
        writer.push('\n' as u8);
        assert(writer@ =~= old(writer)@ + Frame::tag_line());
        let ghost tagged = writer@;

        push_decimal(writer, self.cols);
        writer.push(' ' as u8);
        push_decimal(writer, self.rows);
        writer.push('\n' as u8);
        assert(writer@ =~= tagged + self@.size_line());
        let ghost sized = writer@;

        writer.push('#' as u8);
        writer.push('F' as u8);
        writer.push('T' as u8);
        writer.push(' ' as u8);
        push_decimal(writer, OFFSET_X as usize);
        writer.push(' ' as u8);
        push_decimal(writer, OFFSET_Y as usize);
        writer.push(' ' as u8);
        push_decimal(writer, self.layer as usize);
        writer.push('\n' as u8);
        assert(writer@ =~= sized + self@.layer_line());
        let ghost layered = writer@;

        push_decimal(writer, MAX_CHANNEL as usize);
        writer.push('\n' as u8);
        assert(writer@ =~= layered + Frame::depth_line());
        assert(writer@ =~= old(writer)@ + self@.header());
    }

    /// Appends the binary message to `writer`: the header, then red, green
    /// and blue of every pixel, row by row from the top.
    pub fn write(&self, writer: &mut Vec<u8>)
        ensures
            final(writer)@ == old(writer)@ + self@.encoding(),
            final(writer)@.len() == old(writer)@.len() + self@.header().len() + self@.rows
                * self@.cols * 3,
            self@.wf(),
    {
        proof {
            use_type_invariant(self);
        }
        self.write_headers(writer);
        let ghost headed = writer@;
        let mut i: usize = 0;
        while i < self.pixels.len()
            invariant
                i <= self.pixels@.len(),
                writer@ == headed + self@.payload().take(3 * i),
            decreases self.pixels@.len() - i,
        {
            let pixel = self.pixels[i];
            writer.push(pixel.r);
            writer.push(pixel.g);
            writer.push(pixel.b);
            i = i + 1;
            assert(writer@ =~= headed + self@.payload().take(3 * i));
        }
        assert(self@.payload().take(3 * i) =~= self@.payload());
        assert(writer@ =~= old(writer)@ + self@.encoding());
    }

    /// Appends the four header lines to `writer` as text.
    pub fn format_headers(&self, writer: &mut String)
        ensures
            final(writer)@ == old(writer)@ + self@.header_text(),
            self@.wf(),
    {
        let mut header: Vec<u8> = Vec::new();
        self.write_headers(&mut header);
        assert(header@ =~= self@.header());
        push_ascii(writer, &header);
    }

    /// Appends the terminal preview to `f`: the header lines, then one line
    /// for each row from the top, every pixel of it a block in the pixel's
    /// colour, and a line feed at the end of each row.
    pub fn fmt(&self, f: &mut String)
        ensures
            final(f)@ == old(f)@ + self@.text(),
            self@.wf(),
    {
        proof {
            use_type_invariant(self);
        }
        self.format_headers(f);
        let ghost headed = f@;
        let mut row: usize = 0;
        while row < self.rows
            invariant
                row <= self.rows,
                self.rows * self.cols <= usize::MAX,
                self.pixels@.len() == self.rows * self.cols,
                f@ == headed + self@.body_text(row as nat),
            decreases self.rows - row,
        {
            let ghost above = f@;
            let mut col: usize = 0;
            while col < self.cols
                invariant
                    col <= self.cols,
                    row < self.rows,
                    self.rows * self.cols <= usize::MAX,
                    self.pixels@.len() == self.rows * self.cols,
                    f@ == above + self@.row_text(row as int, col as nat),
                decreases self.cols - col,
            {
                proof {
                    lemma_cell_index(self.rows as nat, self.cols as nat, row as int, col as int);
                }
                push_glyph(f, self.pixels[row * self.cols + col]);
                col = col + 1;
                assert(f@ =~= above + self@.row_text(row as int, col as nat));
            }
            f.push('\n');
            row = row + 1;
            assert(f@ =~= headed + self@.body_text(row as nat));
        }
        assert(f@ =~= old(f)@ + self@.text());
    }
}

} // verus!
