//! The order of a render pass.
//!
//! A pass emits the header, then walks the rows from the top; within a row
//! the pixels from the left; for each pixel it traces the configured number
//! of samples and then emits the averaged pixel; after the last pixel of a
//! row it ends the line. `Scan` is the cursor of that walk: `next` says what
//! to do now and moves on. Tracing and writing are the caller's part.

use vstd::prelude::*;
use crate::image::Image;
use crate::ppm::{color_text, header_text};

verus! {

/// What the caller does next.
#[derive(Clone, Copy, Debug, PartialEq, Eq, Structural)]
pub enum Step {
    /// Emit the raster header.
    Header,
    /// Trace one more sample through pixel `(u, v)` and add it to the pixel's sum.
    Sample { u: i32, v: i32 },
    /// Every sample of pixel `(u, v)` is in: average, emit the pixel, clear the sum.
    Pixel { u: i32, v: i32 },
    /// Row `v` is complete: end the line.
    NewLine { v: i32 },
    /// The pass is over.
    Done,
}

/// Cursor of a render pass over an image with a number of samples per pixel.
#[derive(Clone, Copy, Debug)]
pub struct Scan {
    image: Image,
    samples: i16,
    started: bool,
    v: i32,
    u: i32,
    k: i16,
}

/// `x`, or zero where `x` is negative.
pub open spec fn at_least_zero(x: int) -> int {
    if x < 0 {
        0
    } else {
        x
    }
}

/// Steps spent on one pixel: its samples and its emission.
pub open spec fn steps_per_pixel(samples: int) -> int {
    at_least_zero(samples) + 1
}

/// Steps spent on one row: its pixels and the end of the line.
pub open spec fn steps_per_row(width: int, samples: int) -> int {
    at_least_zero(width) * steps_per_pixel(samples) + 1
}

/// Steps of a whole pass, the header included and `Done` not.
pub open spec fn steps_total(width: int, height: int, samples: int) -> int {
    1 + at_least_zero(height) * steps_per_row(width, samples)
}

/// Number of steps that precede the `k`-th sample of pixel `(u, v)`; with
/// `k` equal to the sample count, those that precede the pixel's emission.
pub open spec fn steps_before(width: int, samples: int, u: int, v: int, k: int) -> int {
    1 + v * steps_per_row(width, samples) + u * steps_per_pixel(samples) + k
}

/// The bytes that the caller appends to the output for `step`: the header,
/// a pixel in the colour that `color` gives its column and row, or a line
/// feed. A sample, and the end of the pass, append none.
pub open spec fn step_text(step: Step, image: Image, color: spec_fn(int, int) -> (i16, i16, i16)) -> Seq<
    u8,
> {
    match step {
        Step::Header => header_text(image.width as int, image.height as int),
        Step::Sample { u, v } => Seq::empty(),
        Step::Pixel { u, v } => {
            let c = color(u as int, v as int);
            color_text(c.0, c.1, c.2)
        },
        Step::NewLine { v } => seq![10u8],
        Step::Done => Seq::empty(),
    }
}

/// Row `v` of the raster from column `from` on: the pixels left to right,
/// then a line feed.
pub open spec fn row_text(width: int, v: int, color: spec_fn(int, int) -> (i16, i16, i16), from: int) -> Seq<
    u8,
>
    decreases width - from,
{
    if from >= width {
        seq![10u8]
    } else {
        let c = color(from, v);
        color_text(c.0, c.1, c.2) + row_text(width, v, color, from + 1)
    }
}

/// The rows of the raster from row `from` on, top to bottom.
pub open spec fn rows_text(
    width: int,
    height: int,
    color: spec_fn(int, int) -> (i16, i16, i16),
    from: int,
) -> Seq<u8>
    decreases height - from,
{
    if from >= height {
        Seq::empty()
    } else {
        row_text(width, from, color, 0) + rows_text(width, height, color, from + 1)
    }
}

/// The whole raster: the header, then every row.
pub open spec fn raster_text(image: Image, color: spec_fn(int, int) -> (i16, i16, i16)) -> Seq<u8> {
    header_text(image.width as int, image.height as int) + rows_text(
        image.width as int,
        image.height as int,
        color,
        0,
    )
}

impl Scan {
    /// The image being rendered.
    pub closed spec fn image(&self) -> Image {
        self.image
    }

    /// Samples per pixel, as configured.
    pub closed spec fn samples(&self) -> int {
        self.samples as int
    }

    /// Whether the header has been handed out.
    pub closed spec fn started(&self) -> bool {
        self.started
    }

    /// Row of the cursor.
    pub closed spec fn row(&self) -> int {
        self.v as int
    }

    /// Column of the cursor.
    pub closed spec fn column(&self) -> int {
        self.u as int
    }

    /// Samples of the cursor's pixel that have been handed out.
    pub closed spec fn sampled(&self) -> int {
        self.k as int
    }

    /// The cursor lies within the pass.
    pub open spec fn well_formed(&self) -> bool {
        &&& 0 <= self.row() <= at_least_zero(self.image().height as int)
        &&& 0 <= self.column() <= at_least_zero(self.image().width as int)
        &&& 0 <= self.sampled() <= at_least_zero(self.samples())
        &&& !self.started() ==> self.row() == 0 && self.column() == 0 && self.sampled() == 0
        &&& self.row() == at_least_zero(self.image().height as int) ==> self.column() == 0
            && self.sampled() == 0
        &&& self.column() == at_least_zero(self.image().width as int) ==> self.sampled() == 0
    }

    /// Number of steps handed out so far.
    pub open spec fn position(&self) -> int {
        if !self.started() {
            0
        } else {
            steps_before(
                self.image().width as int,
                self.samples(),
                self.column(),
                self.row(),
                self.sampled(),
            )
        }
    }

    /// Number of steps of the whole pass.
    pub open spec fn length(&self) -> int {
        steps_total(self.image().width as int, self.image().height as int, self.samples())
    }

    /// The step that the cursor stands on.
    pub open spec fn current(&self) -> Step {
        if !self.started() {
            Step::Header
        } else if self.row() >= self.image().height {
            Step::Done
        } else if self.column() >= self.image().width {
            Step::NewLine { v: self.row() as i32 }
        } else if self.sampled() >= self.samples() {
            Step::Pixel { u: self.column() as i32, v: self.row() as i32 }
        } else {
            Step::Sample { u: self.column() as i32, v: self.row() as i32 }
        }
    }

    /// The cursor at the start of a pass, before the header.
    pub closed spec fn start(image: Image, samples: i16) -> Scan {
        Scan { image, samples, started: false, v: 0, u: 0, k: 0 }
    }

    /// The cursor after the current step; the cursor itself once the pass
    /// is over.
    pub closed spec fn successor(&self) -> Scan {
        if !self.started {
            Scan { started: true, ..*self }
        } else if self.v >= self.image.height {
            *self
        } else if self.u >= self.image.width {
            Scan { v: (self.v + 1) as i32, u: 0, k: 0, ..*self }
        } else if self.k >= self.samples {
            Scan { u: (self.u + 1) as i32, k: 0, ..*self }
        } else {
            Scan { k: (self.k + 1) as i16, ..*self }
        }
    }

    /// The bytes that a caller appends from this cursor to the end of the
    /// pass, when it appends `step_text` for each step handed out.
    pub closed spec fn remaining_text(&self, color: spec_fn(int, int) -> (i16, i16, i16)) -> Seq<u8>
        decreases
            (if self.started() { 0int } else { 1int }),
            self.image().height - self.row(),
            self.image().width - self.column(),
            self.samples() - self.sampled(),
    {
        if self.current() is Done {
            Seq::empty()
        } else {
            step_text(self.current(), self.image, color) + self.successor().remaining_text(color)
        }
    }

    /// The cursor that stands on pixel `(u, v)` with `k` of its samples
    /// handed out.
    pub closed spec fn at(image: Image, samples: i16, u: i32, v: i32, k: i16) -> Scan {
        Scan { image, samples, started: true, v, u, k }
    }

    /// A cursor at the start of a pass over `image` with `samples` samples
    /// per pixel. A sample count below one gives a pass without samples.
    pub fn new(image: Image, samples: i16) -> (scan: Scan)
        ensures
            scan == Scan::start(image, samples),
            scan.well_formed(),
            scan.image() == image,
            scan.samples() == samples,
            !scan.started(),
            scan.position() == 0,
    {
        Scan { image, samples, started: false, v: 0, u: 0, k: 0 }
    }

    /// Hands out the current step and moves the cursor past it. Once the
    /// pass is over the answer stays `Done` and the cursor stays where it is.
    pub fn next(&mut self) -> (step: Step)
        requires
            old(self).well_formed(),
        ensures
            final(self).well_formed(),
            final(self).image() == old(self).image(),
            final(self).samples() == old(self).samples(),
            step == old(self).current(),
            *final(self) == old(self).successor(),
            (step is Done) <==> old(self).position() == old(self).length(),
            step is Done ==> *final(self) == *old(self),
            !(step is Done) ==> final(self).position() == old(self).position() + 1,
            !(step is Done) ==> old(self).position() < old(self).length(),
            final(self).started(),
            step is Sample ==> final(self).row() == old(self).row() && final(self).column()
                == old(self).column() && final(self).sampled() == old(self).sampled() + 1,
            step is Pixel ==> final(self).row() == old(self).row() && final(self).column()
                == old(self).column() + 1 && final(self).sampled() == 0,
            step is NewLine ==> final(self).row() == old(self).row() + 1 && final(self).column()
                == 0 && final(self).sampled() == 0,
            step is Header ==> final(self).row() == 0 && final(self).column() == 0
                && final(self).sampled() == 0,
    {
        proof {
            lemma_position_bound(
                self.image.width as int,
                self.image.height as int,
                self.samples as int,
                self.u as int,
                self.v as int,
                self.k as int,
            );
        }
        if !self.started {
            self.started = true;
            assert(self.position() == 1) by (nonlinear_arith)
                requires
                    self.position() == 1 + self.v * steps_per_row(
                        self.image.width as int,
                        self.samples as int,
                    ) + self.u * steps_per_pixel(self.samples as int) + self.k,
                    self.v == 0,
                    self.u == 0,
                    self.k == 0,
            ;
            Step::Header
        } else if self.v >= self.image.height {
            Step::Done
        } else if self.u >= self.image.width {
            let v = self.v;
            proof {
                lemma_row_end(self.image.width as int, self.samples as int, self.v as int);
            }
            self.v = v + 1;
            self.u = 0;
            self.k = 0;
            Step::NewLine { v }
        } else if self.k >= self.samples {
            let u = self.u;
            proof {
                lemma_pixel_end(
                    self.image.width as int,
                    self.samples as int,
                    self.u as int,
                    self.v as int,
                );
            }
            self.u = u + 1;
            self.k = 0;
            Step::Pixel { u, v: self.v }
        } else {
            self.k = self.k + 1;
            Step::Sample { u: self.u, v: self.v }
        }
    }
}

/// Ending row `v` leads to the start of row `v + 1`.
pub proof fn lemma_row_end(width: int, samples: int, v: int)
    ensures
        steps_before(width, samples, 0, v + 1, 0) == steps_before(
            width,
            samples,
            at_least_zero(width),
            v,
            0,
        ) + 1,
{
    let r = steps_per_row(width, samples);
    assert((v + 1) * r == v * r + r) by (nonlinear_arith);
}

/// Emitting pixel `(u, v)` leads to the first sample of pixel `(u + 1, v)`.
pub proof fn lemma_pixel_end(width: int, samples: int, u: int, v: int)
    ensures
        steps_before(width, samples, u + 1, v, 0) == steps_before(
            width,
            samples,
            u,
            v,
            at_least_zero(samples),
        ) + 1,
{
    let p = steps_per_pixel(samples);
    assert((u + 1) * p == u * p + p) by (nonlinear_arith);
}

/// A cursor inside the image stands before the end of the pass, and a cursor
/// on the row past the last stands exactly at the end.
pub proof fn lemma_position_bound(width: int, height: int, samples: int, u: int, v: int, k: int)
    requires
        0 <= v <= at_least_zero(height),
        0 <= u <= at_least_zero(width),
        0 <= k <= at_least_zero(samples),
        u == at_least_zero(width) ==> k == 0,
        v == at_least_zero(height) ==> u == 0 && k == 0,
    ensures
        1 <= steps_before(width, samples, u, v, k) <= steps_total(width, height, samples),
        steps_before(width, samples, u, v, k) == steps_total(width, height, samples) <==> v
            == at_least_zero(height),
{
    let p = steps_per_pixel(samples);
    let r = steps_per_row(width, samples);
    let w = at_least_zero(width);
    let h = at_least_zero(height);
    assert(0 <= v * r) by (nonlinear_arith)
        requires
            0 <= v,
            0 <= r,
    ;
    assert(0 <= u * p) by (nonlinear_arith)
        requires
            0 <= u,
            0 <= p,
    ;
    if v < h {
        assert(u * p + k < r) by (nonlinear_arith)
            requires
                0 <= u <= w,
                0 <= k <= p - 1,
                u == w ==> k == 0,
                r == w * p + 1,
                p >= 1,
        ;
        assert((v + 1) * r <= h * r) by (nonlinear_arith)
            requires
                v + 1 <= h,
                0 <= r,
        ;
        assert((v + 1) * r == v * r + r) by (nonlinear_arith);
    } else {
        assert(u * p == 0) by (nonlinear_arith)
            requires
                u == 0,
        ;
    }
}

/// Two cursors of one pass that have handed out equally many steps are the
/// same cursor: no step of a pass is handed out twice.
pub proof fn lemma_position_determines_cursor(a: Scan, b: Scan)
    requires
        a.well_formed(),
        b.well_formed(),
        a.image() == b.image(),
        a.samples() == b.samples(),
        a.position() == b.position(),
    ensures
        a == b,
{
    let width = a.image.width as int;
    let height = a.image.height as int;
    let samples = a.samples as int;
    let p = steps_per_pixel(samples);
    let r = steps_per_row(width, samples);
    lemma_position_bound(width, height, samples, a.u as int, a.v as int, a.k as int);
    lemma_position_bound(width, height, samples, b.u as int, b.v as int, b.k as int);
    assert(a.started == b.started);
    if a.started {
        lemma_offset_bound(width, samples, a.u as int, a.k as int);
        lemma_offset_bound(width, samples, b.u as int, b.k as int);
        lemma_mixed_radix(r, a.v as int, a.u * p + a.k, b.v as int, b.u * p + b.k);
        lemma_mixed_radix(p, a.u as int, a.k as int, b.u as int, b.k as int);
    }
}

/// Every pixel of the image is sampled and emitted at the place in the pass
/// that row-major order gives it: the cursor on pixel `(u, v)` with `k`
/// samples handed out is well formed, has handed out `steps_before` steps, and
/// stands on a sample of that pixel while `k` is below the sample count and on
/// the pixel's emission when `k` has reached it.
pub proof fn lemma_row_major(image: Image, samples: i16, u: i32, v: i32, k: i16)
    requires
        0 <= v < image.height,
        0 <= u < image.width,
        0 <= k <= at_least_zero(samples as int),
    ensures
        Scan::at(image, samples, u, v, k).well_formed(),
        Scan::at(image, samples, u, v, k).image() == image,
        Scan::at(image, samples, u, v, k).samples() == samples,
        Scan::at(image, samples, u, v, k).position() == steps_before(
            image.width as int,
            samples as int,
            u as int,
            v as int,
            k as int,
        ),
        k < samples ==> Scan::at(image, samples, u, v, k).current() == (Step::Sample { u, v }),
        k >= samples ==> Scan::at(image, samples, u, v, k).current() == (Step::Pixel { u, v }),
{
}

/// What remains of a pass is what the current step appends, followed by what
/// remains after it.
pub proof fn lemma_remaining_text_unfolds(scan: Scan, color: spec_fn(int, int) -> (i16, i16, i16))
    ensures
        scan.remaining_text(color) == step_text(scan.current(), scan.image(), color)
            + scan.successor().remaining_text(color),
{
    if scan.current() is Done {
        assert(scan.successor() == scan);
        assert(scan.remaining_text(color) =~= Seq::<u8>::empty() + scan.remaining_text(color));
    }
}

/// A whole pass writes the raster: a caller that starts with a fresh cursor
/// and appends `step_text` for every step up to `Done` has written the header
/// and then, row by row from the top and pixel by pixel from the left, one
/// triplet for each pixel of the image and a line feed after each row,
/// whatever the number of samples.
pub proof fn lemma_pass_writes_raster(
    image: Image,
    samples: i16,
    color: spec_fn(int, int) -> (i16, i16, i16),
)
    ensures
        Scan::start(image, samples).well_formed(),
        Scan::start(image, samples).position() == 0,
        Scan::start(image, samples).remaining_text(color) == raster_text(image, color),
{
    let fresh = Scan::start(image, samples);
    let first = Scan { image, samples, started: true, v: 0, u: 0, k: 0 };
    assert(fresh.current() == Step::Header);
    assert(fresh.successor() == first);
    lemma_rest_of_pass(first, color);
}

/// From a started cursor on, a pass writes the rest of the cursor's row and
/// the rows below it.
proof fn lemma_rest_of_pass(scan: Scan, color: spec_fn(int, int) -> (i16, i16, i16))
    requires
        scan.started,
        0 <= scan.v,
        0 <= scan.u,
        0 <= scan.k,
    ensures
        scan.remaining_text(color) == (if scan.v >= scan.image.height {
            Seq::<u8>::empty()
        } else {
            row_text(scan.image.width as int, scan.v as int, color, scan.u as int) + rows_text(
                scan.image.width as int,
                scan.image.height as int,
                color,
                scan.v + 1,
            )
        }),
    decreases scan.image.height - scan.v, scan.image.width - scan.u, scan.samples - scan.k,
{
    let width = scan.image.width as int;
    let height = scan.image.height as int;
    if scan.v >= scan.image.height {
    } else if scan.u >= scan.image.width {
        let next = scan.successor();
        lemma_rest_of_pass(next, color);
        assert(scan.remaining_text(color) =~= row_text(width, scan.v as int, color, scan.u as int)
            + rows_text(width, height, color, scan.v + 1));
    } else if scan.k >= scan.samples {
        let next = scan.successor();
        lemma_rest_of_pass(next, color);
        assert(scan.remaining_text(color) =~= row_text(width, scan.v as int, color, scan.u as int)
            + rows_text(width, height, color, scan.v + 1));
    } else {
        let next = scan.successor();
        lemma_rest_of_pass(next, color);
        assert(scan.remaining_text(color) =~= next.remaining_text(color));
    }
}

/// Within a row, the steps before a cursor are fewer than the row's steps.
proof fn lemma_offset_bound(width: int, samples: int, u: int, k: int)
    requires
        0 <= u <= at_least_zero(width),
        0 <= k <= at_least_zero(samples),
        u == at_least_zero(width) ==> k == 0,
    ensures
        0 <= u * steps_per_pixel(samples) + k < steps_per_row(width, samples),
{
    let p = steps_per_pixel(samples);
    let w = at_least_zero(width);
    assert(0 <= u * p + k < w * p + 1) by (nonlinear_arith)
        requires
            0 <= u <= w,
            0 <= k <= p - 1,
            u == w ==> k == 0,
            p >= 1,
    ;
}

/// A number is written in one way only as a multiple of `radix` plus a
/// remainder below `radix`.
proof fn lemma_mixed_radix(radix: int, hi1: int, lo1: int, hi2: int, lo2: int)
    requires
        radix >= 1,
        0 <= lo1 < radix || (lo1 == 0 && lo2 == 0),
        0 <= lo2 < radix || (lo1 == 0 && lo2 == 0),
        hi1 * radix + lo1 == hi2 * radix + lo2,
    ensures
        hi1 == hi2,
        lo1 == lo2,
{
    assert(hi1 == hi2) by (nonlinear_arith)
        requires
            radix >= 1,
            0 <= lo1 < radix || (lo1 == 0 && lo2 == 0),
            0 <= lo2 < radix || (lo1 == 0 && lo2 == 0),
            hi1 * radix + lo1 == hi2 * radix + lo2,
    ;
}

} // verus!
