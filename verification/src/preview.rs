//! The terminal preview: the header as text, then one line for each row of
//! the frame, each pixel a block character in its own colour.

use crate::decimal::{decimal, lemma_decimal, push_decimal};
use crate::encoding::{MAX_CHANNEL, OFFSET_X, OFFSET_Y};
use crate::frame::Frame;
use crate::pixel::Pixel;
use vstd::prelude::*;

verus! {

/// The character that stands for a pixel: a full block.
pub const BLOCK: char = '\u{2588}';

/// The characters whose codes are the bytes of `bytes`.
pub open spec fn ascii_text(bytes: Seq<u8>) -> Seq<char> {
    bytes.map_values(|b: u8| b as char)
}

/// The escape sequence that sets the foreground to the colour of `p`.
pub open spec fn colour_escape(p: Pixel) -> Seq<char> {
    seq!['\x1b', '[', '3', '8', ';', '2', ';'] + ascii_text(decimal(p.r as nat)) + seq![';']
        + ascii_text(decimal(p.g as nat)) + seq![';'] + ascii_text(decimal(p.b as nat)) + seq![
        'm',
    ]
}

/// The escape sequence that goes back to the terminal's own styling.
pub open spec fn reset_escape() -> Seq<char> {
    seq!['\x1b', '[', '0', 'm']
}

/// What is printed for one pixel: its colour is set, a block is drawn, the
/// styling is reset.
pub open spec fn glyph(p: Pixel) -> Seq<char> {
    colour_escape(p) + seq![BLOCK] + reset_escape()
}

impl Frame {
    /// The glyphs of the first `upto` pixels of row `row`.
    pub open spec fn row_text(self, row: int, upto: nat) -> Seq<char>
        decreases upto,
    {
        if upto == 0 {
            Seq::empty()
        } else {
            self.row_text(row, (upto - 1) as nat) + glyph(self.cell(row, upto - 1))
        }
    }

    /// The first `upto` rows, each one its glyphs and then a line feed.
    pub open spec fn body_text(self, upto: nat) -> Seq<char>
        decreases upto,
    {
        if upto == 0 {
            Seq::empty()
        } else {
            self.body_text((upto - 1) as nat) + self.row_text(upto - 1, self.cols) + seq!['\n']
        }
    }

    /// The header as text: the same four lines that the binary message
    /// starts with.
    pub open spec fn header_text(self) -> Seq<char> {
        ascii_text(self.header())
    }

    /// The whole preview: the header, then the rows from the top.
    pub open spec fn text(self) -> Seq<char> {
        self.header_text() + self.body_text(self.rows)
    }
}

/// How often the character `c` occurs in `s`.
pub open spec fn count(s: Seq<char>, c: char) -> nat
    decreases s.len(),
{
    if s.len() == 0 {
        0
    } else {
        count(s.drop_last(), c) + if s.last() == c {
            1nat
        } else {
            0nat
        }
    }
}

/// The character `c` does not occur in `s`.
pub open spec fn free_of(s: Seq<char>, c: char) -> bool {
    forall|i: int| 0 <= i < s.len() ==> s[i] != c
}

proof fn lemma_count_concat(a: Seq<char>, b: Seq<char>, c: char)
    ensures
        count(a + b, c) == count(a, c) + count(b, c),
    decreases b.len(),
{
    if b.len() == 0 {
        assert(a + b =~= a);
    } else {
        assert((a + b).drop_last() =~= a + b.drop_last());
        lemma_count_concat(a, b.drop_last(), c);
    }
}

proof fn lemma_count_free(s: Seq<char>, c: char)
    requires
        free_of(s, c),
    ensures
        count(s, c) == 0,
    decreases s.len(),
{
    if s.len() > 0 {
        lemma_count_free(s.drop_last(), c);
    }
}

proof fn lemma_count_one(x: char, c: char)
    ensures
        count(seq![x], c) == if x == c {
            1nat
        } else {
            0nat
        },
{
    assert(seq![x].drop_last() =~= Seq::<char>::empty());
    assert(count(seq![x].drop_last(), c) == 0);
}

/// A numeral holds neither a line feed nor a block.
proof fn lemma_numeral_free(n: nat, c: char)
    requires
        c == '\n' || c == BLOCK,
    ensures
        free_of(ascii_text(decimal(n)), c),
{
    lemma_decimal(n);
}

/// A glyph holds one block and no line feed.
pub proof fn lemma_glyph_counts(p: Pixel)
    ensures
        count(glyph(p), BLOCK) == 1,
        count(glyph(p), '\n') == 0,
{
    lemma_numeral_free(p.r as nat, BLOCK);
    lemma_numeral_free(p.g as nat, BLOCK);
    lemma_numeral_free(p.b as nat, BLOCK);
    lemma_numeral_free(p.r as nat, '\n');
    lemma_numeral_free(p.g as nat, '\n');
    lemma_numeral_free(p.b as nat, '\n');
    assert(free_of(colour_escape(p), BLOCK));
    assert(free_of(colour_escape(p), '\n'));
    assert(free_of(reset_escape(), BLOCK));
    assert(free_of(reset_escape(), '\n'));
    lemma_count_free(colour_escape(p), BLOCK);
    lemma_count_free(colour_escape(p), '\n');
    lemma_count_free(reset_escape(), BLOCK);
    lemma_count_free(reset_escape(), '\n');
    lemma_count_one(BLOCK, BLOCK);
    lemma_count_one(BLOCK, '\n');
    lemma_count_concat(colour_escape(p), seq![BLOCK], BLOCK);
    lemma_count_concat(colour_escape(p), seq![BLOCK], '\n');
    lemma_count_concat(colour_escape(p) + seq![BLOCK], reset_escape(), BLOCK);
    lemma_count_concat(colour_escape(p) + seq![BLOCK], reset_escape(), '\n');
}

/// The first `upto` glyphs of a row hold `upto` blocks and no line feed.
pub proof fn lemma_row_counts(f: Frame, row: int, upto: nat)
    ensures
        count(f.row_text(row, upto), BLOCK) == upto,
        count(f.row_text(row, upto), '\n') == 0,
    decreases upto,
{
    if upto > 0 {
        let before = f.row_text(row, (upto - 1) as nat);
        let last = glyph(f.cell(row, upto - 1));
        lemma_row_counts(f, row, (upto - 1) as nat);
        lemma_glyph_counts(f.cell(row, upto - 1));
        lemma_count_concat(before, last, BLOCK);
        lemma_count_concat(before, last, '\n');
    }
}

/// The first `upto` rows of the preview hold `upto` line feeds: one at the
/// end of each row.
pub proof fn lemma_body_lines(f: Frame, upto: nat)
    ensures
        count(f.body_text(upto), '\n') == upto,
        count(f.body_text(upto), BLOCK) == upto * f.cols,
    decreases upto,
{
    if upto > 0 {
        let before = f.body_text((upto - 1) as nat);
        let row = f.row_text(upto - 1, f.cols);
        lemma_body_lines(f, (upto - 1) as nat);
        lemma_row_counts(f, upto - 1, f.cols);
        lemma_count_one('\n', '\n');
        lemma_count_one('\n', BLOCK);
        lemma_count_concat(before, row, '\n');
        lemma_count_concat(before, row, BLOCK);
        lemma_count_concat(before + row, seq!['\n'], '\n');
        lemma_count_concat(before + row, seq!['\n'], BLOCK);
        assert(upto * f.cols == (upto - 1) * f.cols + f.cols) by (nonlinear_arith);
    }
}

/// The preview is the four lines of the header and then one line for each
/// row of the frame; each of these lines holds as many blocks as the frame
/// has columns, and the line feed at its end is its only one.
pub proof fn lemma_text_lines(f: Frame)
    ensures
        f.text() == f.header_text() + f.body_text(f.rows),
        count(f.header_text(), '\n') == 4,
        count(f.body_text(f.rows), '\n') == f.rows,
        count(f.text(), '\n') == 4 + f.rows,
        count(f.text(), BLOCK) == f.rows * f.cols,
        forall|row: int|
            0 <= row < f.rows ==> count(#[trigger] f.row_text(row, f.cols), BLOCK) == f.cols
                && count(f.row_text(row, f.cols), '\n') == 0,
{
    lemma_header_lines(f);
    lemma_body_lines(f, f.rows);
    lemma_count_concat(f.header_text(), f.body_text(f.rows), '\n');
    lemma_count_concat(f.header_text(), f.body_text(f.rows), BLOCK);
    assert forall|row: int| 0 <= row < f.rows implies count(
        #[trigger] f.row_text(row, f.cols),
        BLOCK,
    ) == f.cols && count(f.row_text(row, f.cols), '\n') == 0 by {
        lemma_row_counts(f, row, f.cols);
    }
}

/// A header line that is `body` and a line feed, where `body` holds neither
/// a line feed nor a block.
proof fn lemma_line_counts(body: Seq<u8>)
    requires
        free_of(ascii_text(body), '\n'),
        free_of(ascii_text(body), BLOCK),
    ensures
        count(ascii_text(body + seq!['\n' as u8]), '\n') == 1,
        count(ascii_text(body + seq!['\n' as u8]), BLOCK) == 0,
{
    assert(ascii_text(body + seq!['\n' as u8]) =~= ascii_text(body) + seq!['\n']);
    lemma_count_free(ascii_text(body), '\n');
    lemma_count_free(ascii_text(body), BLOCK);
    lemma_count_one('\n', '\n');
    lemma_count_one('\n', BLOCK);
    lemma_count_concat(ascii_text(body), seq!['\n'], '\n');
    lemma_count_concat(ascii_text(body), seq!['\n'], BLOCK);
}

/// The header holds four line feeds and no block.
proof fn lemma_header_lines(f: Frame)
    ensures
        count(f.header_text(), '\n') == 4,
        count(f.header_text(), BLOCK) == 0,
{
    lemma_decimal(f.cols);
    lemma_decimal(f.rows);
    lemma_decimal(OFFSET_X as nat);
    lemma_decimal(OFFSET_Y as nat);
    lemma_decimal(f.layer as nat);
    lemma_decimal(MAX_CHANNEL as nat);
    let tag = seq!['P' as u8, '6' as u8];
    let size = decimal(f.cols) + seq![' ' as u8] + decimal(f.rows);
    let layer = seq!['#' as u8, 'F' as u8, 'T' as u8, ' ' as u8] + decimal(OFFSET_X as nat) + seq![
        ' ' as u8,
    ] + decimal(OFFSET_Y as nat) + seq![' ' as u8] + decimal(f.layer as nat);
    let depth = decimal(MAX_CHANNEL as nat);
    assert(Frame::tag_line() =~= tag + seq!['\n' as u8]);
    assert(f.size_line() =~= size + seq!['\n' as u8]);
    assert(f.layer_line() =~= layer + seq!['\n' as u8]);
    assert(Frame::depth_line() =~= depth + seq!['\n' as u8]);
    lemma_line_counts(tag);
    lemma_line_counts(size);
    lemma_line_counts(layer);
    lemma_line_counts(depth);
    let t = ascii_text(Frame::tag_line());
    let s = ascii_text(f.size_line());
    let l = ascii_text(f.layer_line());
    let d = ascii_text(Frame::depth_line());
    assert(f.header_text() =~= t + s + l + d);
    lemma_count_concat(t, s, '\n');
    lemma_count_concat(t, s, BLOCK);
    lemma_count_concat(t + s, l, '\n');
    lemma_count_concat(t + s, l, BLOCK);
    lemma_count_concat(t + s + l, d, '\n');
    lemma_count_concat(t + s + l, d, BLOCK);
}

/// What this library takes for granted of `String::push` of the standard
/// library: the string afterwards is the string before with `ch` as one more
/// character at its end.
pub assume_specification[ String::push ](s: &mut String, ch: char)
    ensures
        final(s)@ == old(s)@.push(ch),
;

/// Appends to `out` the characters whose codes are the bytes of `bytes`.
pub(crate) fn push_ascii(out: &mut String, bytes: &Vec<u8>)
    ensures
        final(out)@ == old(out)@ + ascii_text(bytes@),
{
    let mut i: usize = 0;
    while i < bytes.len()
        invariant
            i <= bytes@.len(),
            out@ == old(out)@ + ascii_text(bytes@.take(i as int)),
        decreases bytes@.len() - i,
    {
        out.push(bytes[i] as char);
        i = i + 1;
        assert(out@ =~= old(out)@ + ascii_text(bytes@.take(i as int)));
    }
    assert(bytes@.take(i as int) =~= bytes@);
}

/// Appends the decimal numeral of `n` to `out`.
fn push_numeral(out: &mut String, n: u8)
    ensures
        final(out)@ == old(out)@ + ascii_text(decimal(n as nat)),
{
    let mut digits: Vec<u8> = Vec::new();
    push_decimal(&mut digits, n as usize);
    assert(digits@ =~= decimal(n as nat));
    push_ascii(out, &digits);
}

/// Appends the glyph of `p` to `out`.
pub(crate) fn push_glyph(out: &mut String, p: Pixel)
    ensures
        final(out)@ == old(out)@ + glyph(p),
{
    out.push('\x1b');
    out.push('[');
    out.push('3');
    out.push('8');
    out.push(';');
    out.push('2');
    out.push(';');
    push_numeral(out, p.r);
    out.push(';');
    push_numeral(out, p.g);
    out.push(';');
    push_numeral(out, p.b);
    out.push('m');
    assert(out@ =~= old(out)@ + colour_escape(p));
    out.push(BLOCK);
    out.push('\x1b');
    out.push('[');
    out.push('0');
    out.push('m');
    assert(out@ =~= old(out)@ + glyph(p));
}

} // verus!
