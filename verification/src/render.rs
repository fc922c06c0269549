//! The order of work of a render: which pixel is sampled, and when its
//! colour is written out.
//!
//! Pixels leave in raster order, the top row first and each row from left
//! to right. All samples of a pixel are drawn before its line is written,
//! and before the next pixel is begun.

use vstd::prelude::*;
use vstd::arithmetic::div_mod::lemma_fundamental_div_mod_converse;
use crate::color::{MAX_CHANNEL, NEWLINE, SPACE};
use crate::image::Image;
use crate::numeral::{decimal, numeral};

verus! {

/// Something that can produce an image.
pub trait Renderer {
    fn render(&self) {
    }
}

/// A raster position. Columns count from the left edge and rows from the
/// bottom edge, so the top row of an image is row `height - 1`.
#[derive(Debug, Clone, Copy, PartialEq, Eq, Structural)]
pub struct Pixel {
    pub column: usize,
    pub row: usize,
}

/// One unit of work of a render.
#[derive(Debug, Clone, Copy, PartialEq, Eq, Structural)]
pub enum Step {
    /// Trace one more sample through this pixel and add it to the pixel's sum.
    Sample(Pixel),
    /// Average the samples of this pixel and write its line.
    Emit(Pixel),
    /// Every line has been written.
    Done,
}

/// The signature of a plain-text colour raster: the letter `P` and the
/// digit `3`, in ASCII.
pub const MAGIC: [u8; 2] = [0x50, 0x33];

impl Image {
    /// The text that precedes the pixels: the format's opening bytes, the
    /// width and the height, and the largest channel value, on three lines.
    pub open spec fn header_text(&self) -> Seq<u8> {
        MAGIC@ + seq![NEWLINE] + numeral(self.width() as nat) + seq![SPACE] + numeral(self.height() as nat)
            + seq![NEWLINE] + numeral(MAX_CHANNEL as nat) + seq![NEWLINE]
    }

    /// Writes the header.
    pub fn header(&self) -> (text: Vec<u8>)
        ensures
            text@ == self.header_text(),
    {
        let mut text: Vec<u8> = Vec::new();
        text.push(MAGIC[0]);
        text.push(MAGIC[1]);
        text.push(NEWLINE);
        let mut width: Vec<u8> = decimal(self.width());
        text.append(&mut width);
        text.push(SPACE);
        let mut height: Vec<u8> = decimal(self.height());
        text.append(&mut height);
        text.push(NEWLINE);
        let mut limit: Vec<u8> = decimal(MAX_CHANNEL as usize);
        text.append(&mut limit);
        text.push(NEWLINE);
        assert(text@ =~= self.header_text());
        text
    }

    /// Number of pixels, which is the number of lines after the header.
    pub open spec fn pixels(&self) -> nat {
        self.width() as nat * self.height() as nat
    }

    /// Whether `pixel` lies inside the raster.
    pub open spec fn holds(&self, pixel: Pixel) -> bool {
        pixel.column < self.width() && pixel.row < self.height()
    }

    /// The pixel whose line is the `k`-th after the header, counting from zero.
    pub open spec fn pixel_at(&self, k: nat) -> Pixel
        recommends
            k < self.pixels(),
    {
        Pixel {
            column: (k % self.width() as nat) as usize,
            row: (self.height() - 1 - k / self.width() as nat) as usize,
        }
    }

    /// The place of `pixel` in the output: the number of lines written before its own.
    pub open spec fn index_of(&self, pixel: Pixel) -> nat
        recommends
            self.holds(pixel),
    {
        ((self.height() - 1 - pixel.row) * self.width() + pixel.column) as nat
    }

    /// Number of steps of a whole render: for each pixel its samples and one line.
    pub open spec fn steps(&self) -> nat {
        self.pixels() * (self.samples_per_pixel() + 1) as nat
    }

    /// The `n`-th step of a render, counting from zero.
    pub open spec fn step_at(&self, n: nat) -> Step {
        let block = (self.samples_per_pixel() + 1) as nat;
        if n >= self.steps() {
            Step::Done
        } else if n % block < self.samples_per_pixel() {
            Step::Sample(self.pixel_at(n / block))
        } else {
            Step::Emit(self.pixel_at(n / block))
        }
    }
}

/// Every line belongs to a pixel of the raster, and to the one whose place
/// in the output is that line.
pub proof fn lemma_line_has_its_pixel(image: Image, k: nat)
    requires
        image.valid(),
        k < image.pixels(),
    ensures
        image.holds(image.pixel_at(k)),
        image.index_of(image.pixel_at(k)) == k,
{
    let w = image.width() as int;
    let h = image.height() as int;
    let q = k as int / w;
    let r = k as int % w;
    assert(k == q * w + r && 0 <= r < w && 0 <= q) by (nonlinear_arith)
        requires
            q == k as int / w,
            r == k as int % w,
            w > 0,
    ;
    assert(q < h) by (nonlinear_arith)
        requires
            k == q * w + r,
            0 <= r,
            k < w * h,
            w > 0,
    ;
    assert((h - 1 - (h - 1 - q)) * w + r == k);
}

/// Every pixel of the raster has a line of its own, and it is the pixel of
/// that line.
pub proof fn lemma_pixel_has_its_line(image: Image, pixel: Pixel)
    requires
        image.valid(),
        image.holds(pixel),
    ensures
        image.index_of(pixel) < image.pixels(),
        image.pixel_at(image.index_of(pixel)) == pixel,
{
    let w = image.width() as int;
    let h = image.height() as int;
    let q = h - 1 - pixel.row;
    let r = pixel.column as int;
    lemma_fundamental_div_mod_converse(q * w + r, w, q, r);
    assert(0 <= q * w + r < w * h) by (nonlinear_arith)
        requires
            0 <= q < h,
            0 <= r < w,
    ;
}

/// The steps of a render come in blocks, one for each pixel in the order
/// of the lines: first the samples of the pixel, then its line. After the
/// block of the last pixel the render is done.
pub proof fn lemma_block_of_pixel(image: Image, k: nat, j: nat)
    requires
        image.valid(),
        j <= image.samples_per_pixel(),
    ensures
        image.step_at(k * (image.samples_per_pixel() + 1) as nat + j) == if k >= image.pixels() {
            Step::Done
        } else if j < image.samples_per_pixel() {
            Step::Sample(image.pixel_at(k))
        } else {
            Step::Emit(image.pixel_at(k))
        },
{
    let block = image.samples_per_pixel() as int + 1;
    let n = k as int * block + j as int;
    lemma_fundamental_div_mod_converse(n, block, k as int, j as int);
    assert(k < image.pixels() <==> n < image.pixels() * block) by (nonlinear_arith)
        requires
            n == k * block + j,
            0 <= j < block,
            0 <= k,
    ;
}

/// A pixel is written before another exactly when it lies in a higher row,
/// or in the same row and further left.
pub proof fn lemma_top_row_first(image: Image, a: Pixel, b: Pixel)
    requires
        image.holds(a),
        image.holds(b),
    ensures
        image.index_of(a) < image.index_of(b) <==> a.row > b.row || (a.row == b.row && a.column < b.column),
{
    let w = image.width() as int;
    let h = image.height() as int;
    let qa = h - 1 - a.row;
    let qb = h - 1 - b.row;
    let ra = a.column as int;
    let rb = b.column as int;
    assert(qa < qb ==> qa * w + ra < qb * w + rb) by (nonlinear_arith)
        requires
            0 <= ra < w,
            0 <= rb < w,
    ;
    assert(qb < qa ==> qb * w + rb < qa * w + ra) by (nonlinear_arith)
        requires
            0 <= ra < w,
            0 <= rb < w,
    ;
}

/// The steps of one render, handed out one at a time and in order.
pub struct Schedule {
    image: Image,
    column: usize,
    row: usize,
    taken: usize,
    done: bool,
}

impl Schedule {
    #[verifier::type_invariant]
    spec fn inside(self) -> bool {
        &&& self.image.valid()
        &&& self.column < self.image.width()
        &&& self.row < self.image.height()
        &&& self.taken <= self.image.samples_per_pixel()
    }

    /// The image being rendered.
    pub closed spec fn image(&self) -> Image {
        self.image
    }

    /// Number of steps handed out so far.
    pub closed spec fn position(&self) -> nat {
        if self.done {
            self.image.steps()
        } else {
            self.image.index_of(Pixel { column: self.column, row: self.row }) * (self.image.samples_per_pixel() + 1) as nat
                + self.taken as nat
        }
    }

    /// The schedule of a render of `image`, before its first step.
    pub fn new(image: &Image) -> (schedule: Schedule)
        ensures
            schedule.image() == *image,
            schedule.position() == 0,
    {
        let height: usize = image.height();
        let width: usize = image.width();
        proof {
            let top = Pixel { column: 0, row: (height - 1) as usize };
            assert(image.index_of(top) == 0) by (nonlinear_arith)
                requires
                    image.index_of(top) == ((height - 1 - (height - 1)) * width + 0) as nat,
            ;
            assert(0 * (image.samples_per_pixel() + 1) == 0) by (nonlinear_arith);
        }
        Schedule { image: *image, column: 0, row: height - 1, taken: 0, done: false }
    }

    /// Hands out the next step. After the last line it answers `Done`, and
    /// goes on doing so.
    pub fn next(&mut self) -> (step: Step)
        ensures
            final(self).image() == old(self).image(),
            step == old(self).image().step_at(old(self).position()),
            final(self).position() == if old(self).position() < old(self).image().steps() {
                old(self).position() + 1
            } else {
                old(self).position()
            },
    {
        proof {
            use_type_invariant(&*self);
        }
        if self.done {
            return Step::Done;
        }
        let image: Image = self.image;
        let pixel = Pixel { column: self.column, row: self.row };
        let samples: usize = image.samples_per_pixel();
        let width: usize = image.width();
        proof {
            let block = samples as int + 1;
            let index = image.index_of(pixel) as int;
            lemma_pixel_has_its_line(image, pixel);
            lemma_fundamental_div_mod_converse(index * block + self.taken as int, block, index, self.taken as int);
            assert(index * block + self.taken < image.pixels() * block) by (nonlinear_arith)
                requires
                    0 <= index < image.pixels(),
                    0 <= self.taken < block,
            ;
            assert((index + 1) * block == index * block + block) by (nonlinear_arith);
        }
        if self.taken < samples {
            *self = Schedule { image, column: pixel.column, row: pixel.row, taken: self.taken + 1, done: false };
            Step::Sample(pixel)
        } else {
            if pixel.column + 1 < width {
                *self = Schedule { image, column: pixel.column + 1, row: pixel.row, taken: 0, done: false };
            } else if pixel.row > 0 {
                proof {
                    let h = image.height() as int;
                    let w = width as int;
                    let r = pixel.row as int;
                    assert((h - 1 - (r - 1)) * w == (h - 1 - r) * w + w) by (nonlinear_arith);
                }
                *self = Schedule { image, column: 0, row: pixel.row - 1, taken: 0, done: false };
            } else {
                proof {
                    let h = image.height() as int;
                    let w = width as int;
                    assert((h - 1) * w + w == w * h) by (nonlinear_arith);
                }
                *self = Schedule { image, column: pixel.column, row: pixel.row, taken: self.taken, done: true };
            }
            Step::Emit(pixel)
        }
    }
}

} // verus!
