//! The binary pixel-map message: a textual header of four lines, then three
//! raw bytes for every pixel.

use crate::decimal::{decimal, lemma_decimal};
use crate::frame::{lemma_cell_index, Frame};
use crate::pixel::Pixel;
use vstd::prelude::*;

verus! {

/// The largest value of a colour channel, as the fourth header line gives it.
pub const MAX_CHANNEL: u8 = 255;

/// The two addressing coordinates of the comment line. The display reads
/// them; this library always sends zero.
pub const OFFSET_X: u8 = 0;

pub const OFFSET_Y: u8 = 0;

/// The channel of `p` that is sent as byte `k` of its three bytes: red,
/// green, blue.
pub open spec fn channel(p: Pixel, k: int) -> u8 {
    if k == 0 {
        p.r
    } else if k == 1 {
        p.g
    } else {
        p.b
    }
}

impl Frame {
    /// The first header line, the format tag: `P6`.
    pub open spec fn tag_line() -> Seq<u8> {
        seq!['P' as u8, '6' as u8, '\n' as u8]
    }

    /// The second header line: the number of columns, a space, the number of
    /// rows.
    pub open spec fn size_line(self) -> Seq<u8> {
        decimal(self.cols) + seq![' ' as u8] + decimal(self.rows) + seq!['\n' as u8]
    }

    /// The third header line, a comment for the display: `#FT`, the two
    /// addressing coordinates and the layer tag.
    pub open spec fn layer_line(self) -> Seq<u8> {
        seq!['#' as u8, 'F' as u8, 'T' as u8, ' ' as u8] + decimal(OFFSET_X as nat) + seq![
            ' ' as u8,
        ] + decimal(OFFSET_Y as nat) + seq![' ' as u8] + decimal(self.layer as nat) + seq![
            '\n' as u8,
        ]
    }

    /// The fourth header line: the largest value of a channel.
    pub open spec fn depth_line() -> Seq<u8> {
        decimal(MAX_CHANNEL as nat) + seq!['\n' as u8]
    }

    /// The header: its four lines one after the other.
    pub open spec fn header(self) -> Seq<u8> {
        Self::tag_line() + self.size_line() + self.layer_line() + Self::depth_line()
    }

    /// The pixels as raw bytes: red, green and blue of each cell, the cells
    /// row by row from the top, with nothing between them.
    pub open spec fn payload(self) -> Seq<u8> {
        Seq::new(3 * self.cells.len(), |i: int| channel(self.cells[i / 3], i % 3))
    }

    /// The whole message: the header, then the payload.
    pub open spec fn encoding(self) -> Seq<u8> {
        self.header() + self.payload()
    }
}

/// The message is as long as its header and three bytes for each of the
/// `rows * cols` pixels.
pub proof fn lemma_encoding_len(f: Frame)
    requires
        f.wf(),
    ensures
        f.encoding().len() == f.header().len() + f.rows * f.cols * 3,
{
}

/// The three bytes of the cell in row `row`, column `col` stand in the
/// payload at the cell's place in the row-major order.
pub proof fn lemma_payload_row_major(f: Frame, row: int, col: int, k: int)
    requires
        f.wf(),
        0 <= row < f.rows,
        0 <= col < f.cols,
        0 <= k < 3,
    ensures
        0 <= 3 * (row * f.cols + col) + k < f.payload().len(),
        f.payload()[3 * (row * f.cols + col) + k] == channel(f.cell(row, col), k),
{
    lemma_cell_index(f.rows, f.cols, row, col);
}

/// Every byte of the header is a printable ASCII character or a line feed,
/// and the header ends in a line feed.
pub proof fn lemma_header_ascii(f: Frame)
    ensures
        f.header().len() > 0,
        f.header().last() == '\n' as u8,
        forall|i: int|
            0 <= i < f.header().len() ==> #[trigger] f.header()[i] == '\n' as u8 || 32
                <= f.header()[i] < 127,
{
    lemma_decimal(f.cols);
    lemma_decimal(f.rows);
    lemma_decimal(OFFSET_X as nat);
    lemma_decimal(OFFSET_Y as nat);
    lemma_decimal(f.layer as nat);
    lemma_decimal(MAX_CHANNEL as nat);
}

} // verus!
