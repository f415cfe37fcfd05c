//! A canvas of colours for still images, and its text form.

use vstd::prelude::*;
use crate::color::Color;

verus! {

/// Width of the still-image canvas.
pub const SCREEN_WIDTH: usize = 800;

/// Height of the still-image canvas.
pub const SCREEN_HEIGHT: usize = 600;

/// A rectangle of colours, stored row after row.
pub struct Framebuffer {
    buffer: Vec<Color>,
    width: usize,
    height: usize,
}

/// The decimal digits of `n` as ASCII bytes, without leading zeros.
pub open spec fn decimal(n: nat) -> Seq<u8>
    decreases n,
{
    if n < 10 {
        seq![(48 + n) as u8]
    } else {
        decimal(n / 10).push((48 + n % 10) as u8)
    }
}

/// The text of one pixel: its three channels in decimal, a space after
/// each.
pub open spec fn pixel_text(c: Color) -> Seq<u8> {
    decimal(c.r as nat) + seq![32u8] + decimal(c.g as nat) + seq![32u8] + decimal(c.b as nat)
        + seq![32u8]
}

/// The texts of the first `n` pixels, one after another.
pub open spec fn pixels_text(pixels: Seq<Color>, n: nat) -> Seq<u8>
    decreases n,
{
    if n == 0 {
        Seq::empty()
    } else {
        pixels_text(pixels, (n - 1) as nat) + pixel_text(pixels[n - 1])
    }
}

/// The head of a plain-text image: the line `P3`, a line with width and
/// height, and the line `255`.
pub open spec fn ppm_header(width: nat, height: nat) -> Seq<u8> {
    seq![80u8, 51u8, 10u8] + decimal(width) + seq![32u8] + decimal(height) + seq![10u8]
        + seq![50u8, 53u8, 53u8, 10u8]
}

impl Framebuffer {
    /// Number of pixels in a row.
    pub closed spec fn width(&self) -> nat {
        self.width as nat
    }

    /// Number of rows.
    pub closed spec fn height(&self) -> nat {
        self.height as nat
    }

    /// The pixels, row after row.
    pub closed spec fn pixels(&self) -> Seq<Color> {
        self.buffer@
    }

    /// There is one pixel for each place of the rectangle.
    pub open spec fn wf(&self) -> bool {
        self.pixels().len() == self.width() * self.height()
    }

    /// The colour at column `x` of row `y`.
    pub open spec fn at(&self, x: int, y: int) -> Color {
        self.pixels()[y * self.width() + x]
    }

    /// The image as plain text.
    pub open spec fn ppm(&self) -> Seq<u8> {
        ppm_header(self.width(), self.height()) + pixels_text(self.pixels(), self.pixels().len())
    }

    /// A black canvas of the given size.
    pub fn new(width: usize, height: usize) -> (fb: Framebuffer)
        requires
            width * height <= usize::MAX,
        ensures
            fb.wf(),
            fb.width() == width,
            fb.height() == height,
            fb.pixels().len() == width * height,
            forall|i: int| 0 <= i < fb.pixels().len() ==> fb.pixels()[i] == (Color { r: 0, g: 0, b: 0 }),
    {
        let n: usize = width * height;
        let mut buffer: Vec<Color> = Vec::new();
        let mut i: usize = 0;
        while i < n
            invariant
                i <= n,
                buffer@.len() == i,
                forall|j: int| 0 <= j < i ==> buffer@[j] == (Color { r: 0, g: 0, b: 0 }),
            decreases n - i,
        {
            buffer.push(Color::black());
            i = i + 1;
        }
        Framebuffer { buffer, width, height }
    }

    /// Gives every pixel the same colour.
    pub fn clear(&mut self, color: Color)
        requires
            old(self).wf(),
        ensures
            final(self).wf(),
            final(self).width() == old(self).width(),
            final(self).height() == old(self).height(),
            final(self).pixels().len() == old(self).pixels().len(),
            forall|i: int| 0 <= i < final(self).pixels().len() ==> final(self).pixels()[i] == color,
    {
        let n: usize = self.buffer.len();
        let mut i: usize = 0;
        while i < n
            invariant
                i <= n,
                self.buffer@.len() == n,
                self.width == old(self).width,
                self.height == old(self).height,
                forall|j: int| 0 <= j < i ==> self.buffer@[j] == color,
            decreases n - i,
        {
            self.buffer[i] = color;
            i = i + 1;
        }
    }

    /// Colours the pixel at column `x` of row `y`. A place outside the
    /// canvas is ignored.
    pub fn point(&mut self, x: usize, y: usize, color: Color)
        requires
            old(self).wf(),
        ensures
            final(self).wf(),
            final(self).width() == old(self).width(),
            final(self).height() == old(self).height(),
            final(self).pixels() == if x < old(self).width() && y < old(self).height() {
                old(self).pixels().update(y * old(self).width() + x, color)
            } else {
                old(self).pixels()
            },
    {
        if x < self.width && y < self.height {
            proof {
                lemma_index_in_range(x as int, y as int, self.width as int, self.height as int);
                assert(self.buffer.len() == self.width * self.height);
            }
            let index: usize = y * self.width + x;
            self.buffer[index] = color;
        }
    }

    /// The colour at column `x` of row `y`, or `None` outside the canvas.
    pub fn get(&self, x: usize, y: usize) -> (c: Option<Color>)
        requires
            self.wf(),
        ensures
            c == if x < self.width() && y < self.height() {
                Some(self.at(x as int, y as int))
            } else {
                None
            },
    {
        if x < self.width && y < self.height {
            proof {
                lemma_index_in_range(x as int, y as int, self.width as int, self.height as int);
                assert(self.buffer.len() == self.width * self.height);
            }
            Some(self.buffer[y * self.width + x])
        } else {
            None
        }
    }

    /// The image as plain text: the head, then every pixel's three channels
    /// in decimal, row after row.
    pub fn to_ppm(&self) -> (text: Vec<u8>)
        ensures
            text@ == self.ppm(),
    {
        let mut text: Vec<u8> = Vec::new();
        text.push(80u8);
        text.push(51u8);
        text.push(10u8);
        push_decimal(&mut text, self.width);
        text.push(32u8);
        push_decimal(&mut text, self.height);
        text.push(10u8);
        text.push(50u8);
        text.push(53u8);
        text.push(53u8);
        text.push(10u8);
        assert(text@ =~= ppm_header(self.width(), self.height()));
        let n: usize = self.buffer.len();
        let mut i: usize = 0;
        while i < n
            invariant
                i <= n,
                n == self.buffer@.len(),
                text@ == ppm_header(self.width(), self.height()) + pixels_text(
                    self.buffer@,
                    i as nat,
                ),
            decreases n - i,
        {
            let c: Color = self.buffer[i];
            let ghost before = text@;
            push_decimal(&mut text, c.r as usize);
            text.push(32u8);
            push_decimal(&mut text, c.g as usize);
            text.push(32u8);
            push_decimal(&mut text, c.b as usize);
            text.push(32u8);
            assert(text@ =~= before + pixel_text(c));
            assert(text@ =~= ppm_header(self.width(), self.height()) + pixels_text(
                self.buffer@,
                (i + 1) as nat,
            ));
            i = i + 1;
        }
        text
    }

    /// Number of pixels in a row.
    pub fn columns(&self) -> (w: usize)
        ensures
            w == self.width(),
    {
        self.width
    }

    /// Number of rows.
    pub fn rows(&self) -> (h: usize)
        ensures
            h == self.height(),
    {
        self.height
    }
}

/// Appends the decimal digits of `n`.
fn push_decimal(out: &mut Vec<u8>, n: usize)
    ensures
        final(out)@ == old(out)@ + decimal(n as nat),
    decreases n,
{
    if n >= 10 {
        push_decimal(out, n / 10);
    }
    let digit: u8 = (n % 10) as u8;
    out.push(48 + digit);
    assert(out@ =~= old(out)@ + decimal(n as nat));
}

/// Row-major indices of a `width` by `height` rectangle stay inside it, and
/// tell their row and column.
pub proof fn lemma_index_in_range(x: int, y: int, width: int, height: int)
    requires
        0 <= x < width,
        0 <= y < height,
    ensures
        0 <= y * width + x < width * height,
        0 <= y * width <= y * width + x,
        (y * width + x) % width == x,
        (y * width + x) / width == y,
{
    assert(0 <= y * width && y * width + width <= height * width) by (nonlinear_arith)
        requires
            0 <= y < height,
            0 < width,
    ;
    assert(width * height == height * width) by (nonlinear_arith);
    vstd::arithmetic::div_mod::lemma_fundamental_div_mod_converse(y * width + x, width, y, x);
}

} // verus!
