//! Arithmetic of drawing: from the logical 1280 x 1024 space to window
//! pixels, X color channels, and the box erased under a polyline.
use vstd::prelude::*;
use crate::graphics_data::VectorElement;

verus! {

/// Horizontal extent of the logical coordinate space.
pub const LOGICAL_WIDTH: usize = 1280;

/// Vertical extent of the logical coordinate space.
pub const LOGICAL_HEIGHT: usize = 1024;

/// Horizontal offset of the drawing area in the window.
pub const LEFT_MARGIN: usize = 20;

/// Vertical offset of the drawing area in the window.
pub const TOP_MARGIN: usize = 40;

/// A logical width in window pixels.
pub fn scale_w(x: usize, width: u32) -> (r: usize)
    requires
        x * width <= usize::MAX,
    ensures
        r == x * width / LOGICAL_WIDTH as int,
{
    x * (width as usize) / LOGICAL_WIDTH
}

/// A logical height in window pixels.
pub fn scale_h(y: usize, height: u32) -> (r: usize)
    requires
        y * height <= usize::MAX,
    ensures
        r == y * height / LOGICAL_HEIGHT as int,
{
    y * (height as usize) / LOGICAL_HEIGHT
}

/// A logical abscissa in window pixels.
pub fn scale_x(x: usize, width: u32) -> (r: usize)
    requires
        x * width <= usize::MAX,
    ensures
        r == x * width / LOGICAL_WIDTH as int + LEFT_MARGIN,
{
    let w = scale_w(x, width);
    assert(w <= usize::MAX / 1280 + 1) by (nonlinear_arith)
        requires
            w == x * width / 1280,
            x * width <= usize::MAX,
            x * width >= 0,
    ;
    w + LEFT_MARGIN
}

/// A logical ordinate in window pixels.
pub fn scale_y(y: usize, height: u32) -> (r: usize)
    requires
        y * height <= usize::MAX,
    ensures
        r == y * height / LOGICAL_HEIGHT as int + TOP_MARGIN,
{
    let h = scale_h(y, height);
    assert(h <= usize::MAX / 1024 + 1) by (nonlinear_arith)
        requires
            h == y * height / 1024,
            y * height <= usize::MAX,
            y * height >= 0,
    ;
    h + TOP_MARGIN
}

/// An 8-bit channel spread over the 16-bit range of an X color.
pub fn channel16(c: u8) -> (r: u16)
    ensures
        r == c * 257,
{
    c as u16 * (0xffffu16 / 0xffu16)
}

/// A pixel value with its top byte replaced by `alpha`.
pub fn pixel_with_alpha(pixel: u64, alpha: u8) -> (r: u64)
    ensures
        r == pixel % 0x1000000 + alpha * 0x1000000,
{
    let a = alpha as u64;
    let r = (pixel & 0x00ff_ffffu64) | (a << 24u64);
    assert(r == pixel % 0x1000000 + a * 0x1000000) by (bit_vector)
        requires
            r == (pixel & 0x00ff_ffffu64) | (a << 24u64),
            a < 256,
    ;
    r
}

/// The box erased under a polyline, as `(xmin, xmax, ymin, ymax)`: the
/// smallest and largest abscissa and ordinate of its points, or all zero
/// for no points.
pub fn erase_bounds(points: &Vec<VectorElement>) -> (r: (usize, usize, usize, usize))
    ensures
        points@.len() == 0 ==> r == (0usize, 0usize, 0usize, 0usize),
        forall|i: int| 0 <= i < points@.len() ==> {
            &&& r.0 <= (#[trigger] points@[i]).x <= r.1
            &&& r.2 <= points@[i].y <= r.3
        },
        points@.len() > 0 ==> exists|i: int| 0 <= i < points@.len() && (#[trigger] points@[i]).x == r.0,
        points@.len() > 0 ==> exists|i: int| 0 <= i < points@.len() && (#[trigger] points@[i]).x == r.1,
        points@.len() > 0 ==> exists|i: int| 0 <= i < points@.len() && (#[trigger] points@[i]).y == r.2,
        points@.len() > 0 ==> exists|i: int| 0 <= i < points@.len() && (#[trigger] points@[i]).y == r.3,
{
    if points.len() == 0 {
        return (0, 0, 0, 0);
    }
    let mut xmin: usize = points[0].x;
    let mut xmax: usize = points[0].x;
    let mut ymin: usize = points[0].y;
    let mut ymax: usize = points[0].y;
    let mut i: usize = 1;
    while i < points.len()
        invariant
            1 <= i <= points@.len(),
            forall|j: int| 0 <= j < i ==> {
                &&& xmin <= (#[trigger] points@[j]).x <= xmax
                &&& ymin <= points@[j].y <= ymax
            },
            exists|j: int| 0 <= j < i && (#[trigger] points@[j]).x == xmin,
            exists|j: int| 0 <= j < i && (#[trigger] points@[j]).x == xmax,
            exists|j: int| 0 <= j < i && (#[trigger] points@[j]).y == ymin,
            exists|j: int| 0 <= j < i && (#[trigger] points@[j]).y == ymax,
        decreases points@.len() - i,
    {
        let p = &points[i];
        if p.x < xmin {
            xmin = p.x;
        }
        if p.x > xmax {
            xmax = p.x;
        }
        if p.y < ymin {
            ymin = p.y;
        }
        if p.y > ymax {
            ymax = p.y;
        }
        i = i + 1;
    }
    (xmin, xmax, ymin, ymax)
}

} // verus!
