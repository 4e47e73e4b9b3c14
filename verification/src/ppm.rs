//! A canvas written out as a plain-text PPM image.
//!
//! The document is a header of three lines (the tag `P3`, the width and the
//! height, the largest channel value 255), a blank line, one line per row of
//! the canvas from the top, and a line break after the last row. A row holds
//! three decimal numbers per pixel, from the left: the red, green and blue
//! byte. All numbers of a row are separated by single spaces.
use vstd::prelude::*;
use crate::canvas::{Canvas, Grid};
use crate::color::Color;
use crate::decimal::{decimal, push_decimal};

verus! {

/// The parts in order, with `sep` between each two neighbours.
pub open spec fn join(parts: Seq<Seq<char>>, sep: char) -> Seq<char>
    decreases parts.len(),
{
    if parts.len() == 0 {
        Seq::empty()
    } else if parts.len() == 1 {
        parts[0]
    } else {
        join(parts.drop_last(), sep).push(sep) + parts.last()
    }
}

/// The three bytes of a colour as decimal numbers with a space between them.
pub open spec fn pixel_text(c: Color) -> Seq<char> {
    decimal(c.rgb8().0 as nat).push(' ') + decimal(c.rgb8().1 as nat).push(' ') + decimal(
        c.rgb8().2 as nat,
    )
}

impl Grid {
    /// The texts of the pixels of row `y`, from the left.
    pub open spec fn pixel_texts(self, y: int) -> Seq<Seq<char>> {
        Seq::new(self.width as nat, |x: int| pixel_text(self.get(x, y)))
    }

    /// The line of row `y`, without a line break.
    pub open spec fn row_text(self, y: int) -> Seq<char> {
        join(self.pixel_texts(y), ' ')
    }

    /// The lines of all rows, from the top.
    pub open spec fn row_texts(self) -> Seq<Seq<char>> {
        Seq::new(self.height as nat, |y: int| self.row_text(y))
    }

    /// The three header lines, without a line break after the last.
    pub open spec fn ppm_header(self) -> Seq<char> {
        seq!['P', '3', '\n'] + decimal(self.width as nat).push(' ') + decimal(self.height as nat)
            + seq!['\n', '2', '5', '5']
    }

    /// The lines of all rows, with a line break between each two.
    pub open spec fn ppm_body(self) -> Seq<char> {
        join(self.row_texts(), '\n')
    }

    /// The whole document.
    pub open spec fn ppm(self) -> Seq<char> {
        self.ppm_header() + seq!['\n', '\n'] + self.ppm_body().push('\n')
    }
}

/// Joining one more part appends a separator and the part, except that the
/// first part stands alone.
pub proof fn lemma_join_next(parts: Seq<Seq<char>>, sep: char, n: int)
    requires
        0 <= n < parts.len(),
    ensures
        join(parts.take(n + 1), sep) == if n == 0 {
            parts[0]
        } else {
            join(parts.take(n), sep).push(sep) + parts[n]
        },
{
    let p = parts.take(n + 1);
    assert(p.last() == parts[n]);
    assert(p.drop_last() =~= parts.take(n));
    assert(p[0] == parts[0]);
}

/// Appends the text of one pixel.
fn push_pixel(out: &mut String, c: Color)
    ensures
        final(out)@ == old(out)@ + pixel_text(c),
{
    let (r, g, b) = c.rgb8();
    push_decimal(out, r as u32);
    out.append(" ");
    push_decimal(out, g as u32);
    out.append(" ");
    push_decimal(out, b as u32);
    proof {
        reveal_strlit(" ");
        assert(" "@ =~= seq![' ']);
        assert(out@ =~= old(out)@ + pixel_text(c));
    }
}

impl Canvas {
    /// Appends the line of row `y`, without a line break.
    fn push_row(&self, out: &mut String, y: i32)
        requires
            0 <= y < self@.height,
        ensures
            final(out)@ == old(out)@ + self@.row_text(y as int),
    {
        let width: i32 = self.width();
        let ghost texts = self@.pixel_texts(y as int);
        let mut x: i32 = 0;
        while x < width
            invariant
                0 <= x <= width,
                width == self@.width,
                0 <= y < self@.height,
                texts == self@.pixel_texts(y as int),
                out@ == old(out)@ + join(texts.take(x as int), ' '),
            decreases width - x,
        {
            if x > 0 {
                out.append(" ");
            }
            let c: Color = self.get_pixel(x, y);
            push_pixel(out, c);
            proof {
                reveal_strlit(" ");
                assert(" "@ =~= seq![' ']);
                lemma_join_next(texts, ' ', x as int);
                assert(out@ =~= old(out)@ + join(texts.take(x + 1), ' '));
            }
            x = x + 1;
        }
        proof {
            assert(texts.take(width as int) =~= texts);
        }
    }

    /// Appends the lines of all rows, with a line break between each two.
    fn push_body(&self, out: &mut String)
        ensures
            final(out)@ == old(out)@ + self@.ppm_body(),
    {
        let height: i32 = self.height();
        let ghost lines = self@.row_texts();
        let mut y: i32 = 0;
        while y < height
            invariant
                0 <= y <= height,
                height == self@.height,
                lines == self@.row_texts(),
                out@ == old(out)@ + join(lines.take(y as int), '\n'),
            decreases height - y,
        {
            if y > 0 {
                out.append("\n");
            }
            self.push_row(out, y);
            proof {
                reveal_strlit("\n");
                assert("\n"@ =~= seq!['\n']);
                lemma_join_next(lines, '\n', y as int);
                assert(out@ =~= old(out)@ + join(lines.take(y + 1), '\n'));
            }
            y = y + 1;
        }
        proof {
            assert(lines.take(height as int) =~= lines);
        }
    }

    /// Appends the three header lines, without a line break after the last.
    fn push_header(&self, out: &mut String)
        ensures
            final(out)@ == old(out)@ + self@.ppm_header(),
    {
        let width: i32 = self.width();
        let height: i32 = self.height();
        out.append("P3\n");
        push_decimal(out, width as u32);
        out.append(" ");
        push_decimal(out, height as u32);
        out.append("\n255");
        proof {
            reveal_strlit("P3\n");
            reveal_strlit(" ");
            reveal_strlit("\n255");
            assert("P3\n"@ =~= seq!['P', '3', '\n']);
            assert(" "@ =~= seq![' ']);
            assert("\n255"@ =~= seq!['\n', '2', '5', '5']);
            assert(out@ =~= old(out)@ + self@.ppm_header());
        }
    }

    /// The three header lines: the tag, the dimensions, the largest channel
    /// value. No line break follows the last.
    pub fn ppm_header(&self) -> (text: String)
        ensures
            text@ == self@.ppm_header(),
    {
        let mut text = String::new();
        self.push_header(&mut text);
        assert(text@ =~= self@.ppm_header());
        text
    }

    /// The pixel data: one line per row, no line break after the last.
    pub fn ppm_body(&self) -> (text: String)
        ensures
            text@ == self@.ppm_body(),
    {
        let mut text = String::new();
        self.push_body(&mut text);
        assert(text@ =~= self@.ppm_body());
        text
    }

    /// The whole image document.
    pub fn to_ppm(&self) -> (text: String)
        ensures
            text@ == self@.ppm(),
    {
        let mut text = String::new();
        self.push_header(&mut text);
        text.append("\n\n");
        self.push_body(&mut text);
        text.append("\n");
        proof {
            reveal_strlit("\n\n");
            reveal_strlit("\n");
            assert("\n\n"@ =~= seq!['\n', '\n']);
            assert("\n"@ =~= seq!['\n']);
            assert(text@ =~= self@.ppm());
        }
        text
    }
}

} // verus!
