//! Image dimensions and their validation.

use vstd::prelude::*;

verus! {

/// Width and height of a raster image, in pixels.
#[derive(Clone, Copy, Debug)]
pub struct Image {
    pub width: i32,
    pub height: i32,
}

/// The quotient `a / b` rounded toward zero.
pub open spec fn truncated_quotient(a: int, b: int) -> int
    recommends
        b != 0,
{
    let magnitude = (if a < 0 { -a } else { a }) / (if b < 0 { -b } else { b });
    if (a < 0) == (b < 0) {
        magnitude
    } else {
        -magnitude
    }
}

/// `x` limited to the range of `i32`.
pub open spec fn saturated(x: int) -> int {
    if x < i32::MIN {
        i32::MIN as int
    } else if x > i32::MAX {
        i32::MAX as int
    } else {
        x
    }
}

/// The integer ratio of `width` to `height`: the exact quotient rounded toward
/// zero and limited to `i32`. A zero height gives the limit on the side of
/// `width`'s sign, and zero over zero gives zero.
pub open spec fn spec_aspect_ratio(width: int, height: int) -> int {
    if height != 0 {
        saturated(truncated_quotient(width, height))
    } else if width > 0 {
        i32::MAX as int
    } else if width < 0 {
        i32::MIN as int
    } else {
        0
    }
}

/// Magnitude of an `i32` as a `u32`.
fn magnitude(x: i32) -> (m: u32)
    ensures
        m == (if x < 0 { -(x as int) } else { x as int }),
{
    if x < 0 {
        let wide: i64 = -(x as i64);
        wide as u32
    } else {
        x as u32
    }
}

/// Computes the aspect ratio (closest integer ratio toward zero) between
/// width and height.
pub fn aspect_ratio(width: i32, height: i32) -> (ratio: i32)
    ensures
        ratio == spec_aspect_ratio(width as int, height as int),
        width >= 0 && height > 0 ==> ratio * height <= width < (ratio + 1) * height,
{
    if height == 0 {
        if width > 0 {
            i32::MAX
        } else if width < 0 {
            i32::MIN
        } else {
            0
        }
    } else {
        let a: u32 = magnitude(width);
        let b: u32 = magnitude(height);
        let q: u32 = a / b;
        proof {
            assert(q <= a) by (nonlinear_arith)
                requires
                    q == a / b,
                    b >= 1,
            ;
            assert(q * b <= a < (q + 1) * b) by (nonlinear_arith)
                requires
                    q == a / b,
                    b >= 1,
            ;
        }
        if (width < 0) == (height < 0) {
            if q > 2147483647 {
                i32::MAX
            } else {
                q as i32
            }
        } else {
            let wide: i64 = -(q as i64);
            wide as i32
        }
    }
}

impl Image {
    /// Both dimensions are at least one pixel.
    pub open spec fn spec_is_valid(&self) -> bool {
        self.width >= 1 && self.height >= 1
    }

    /// Builds an image of the given dimensions, or reports why it cannot.
    pub fn new(width: i32, height: i32) -> (res: Result<Image, String>)
        ensures
            res is Ok <==> width >= 1 && height >= 1,
            res matches Ok(img) ==> img.width == width && img.height == height,
            res matches Err(msg) ==> msg@ == "Image is not valid"@,
    {
        let img = Image { width, height };
        if img.is_valid() {
            Ok(img)
        } else {
            Err("Image is not valid".to_string())
        }
    }

    /// The integer aspect ratio of this image.
    pub fn aspect_ratio(&self) -> (ratio: i32)
        ensures
            ratio == spec_aspect_ratio(self.width as int, self.height as int),
            self.spec_is_valid() ==> ratio * self.height <= self.width < (ratio + 1) * self.height,
    {
        aspect_ratio(self.width, self.height)
    }

    /// Checks that the image has at least one row and one column.
    pub fn is_valid(&self) -> (ok: bool)
        ensures
            ok == self.spec_is_valid(),
    {
        self.height >= 1 && self.width >= 1
    }
}

} // verus!
