//! The canvas collaborator: the `unsvg` drawing surface behind trusted
//! declarations.
//!
//! The canvas computes where a segment ends and, with the pen down, records
//! the segment in the image. Its endpoint arithmetic runs on floating point
//! and converts the result back to machine integers, a conversion that
//! refuses (by panicking) coordinates far outside the canvas range; the
//! wrappers therefore admit only arguments whose endpoint provably stays
//! convertible, within one billion of the origin on each axis.

use vstd::prelude::*;
use std::io::Write;

verus! {

#[verifier::external_type_specification]
#[verifier::external_body]
pub struct ExImage(unsvg::Image);

/// Where a segment starting at `(x, y)` toward `direction` degrees with the
/// given length ends, as the canvas computes it: a function of these four
/// arguments alone. The canvas computes it with 32-bit float trigonometry;
/// this name takes that computation, rounding included, as one fixed
/// function.
pub uninterp spec fn end_point_of(x: int, y: int, direction: int, length: int) -> (int, int);

/// The largest coordinate or segment length magnitude the canvas wrappers
/// accept; the endpoint of such a segment converts back to a machine
/// integer without fault.
pub const COORD_LIMIT: i32 = 1_000_000_000;

/// Relies on `unsvg::Image::new`. The canvas refuses (by panicking on) zero
/// dimensions, so they are excluded here.
#[verifier::external_body]
pub(crate) fn new_image(width: u32, height: u32) -> (r: unsvg::Image)
    requires
        1 <= width,
        1 <= height,
{
    unsvg::Image::new(width, height)
}

/// Relies on `unsvg::get_end_coordinates`: pure geometry, deterministic in
/// its four arguments.
#[verifier::external_body]
pub(crate) fn compute_endpoint(x: i32, y: i32, direction: i32, length: i32) -> (r: (i32, i32))
    requires
        -COORD_LIMIT <= x <= COORD_LIMIT,
        -COORD_LIMIT <= y <= COORD_LIMIT,
        -COORD_LIMIT <= length <= COORD_LIMIT,
    ensures
        (r.0 as int, r.1 as int) == end_point_of(x as int, y as int, direction as int, length as int),
{
    unsvg::get_end_coordinates(x, y, direction, length)
}

/// Relies on `unsvg::Image::draw_simple_line`: it draws the segment in the
/// palette color named by `color_index` and returns, on success, exactly
/// the endpoint that `unsvg::get_end_coordinates` computes for the same
/// arguments.
#[verifier::external_body]
pub(crate) fn draw_line(
    image: &mut unsvg::Image,
    x: i32,
    y: i32,
    direction: i32,
    length: i32,
    color_index: usize,
) -> (r: Result<(i32, i32), String>)
    requires
        -COORD_LIMIT <= x <= COORD_LIMIT,
        -COORD_LIMIT <= y <= COORD_LIMIT,
        -COORD_LIMIT <= length <= COORD_LIMIT,
        color_index < 16,
    ensures
        r matches Ok(p) ==> (p.0 as int, p.1 as int) == end_point_of(
            x as int,
            y as int,
            direction as int,
            length as int,
        ),
{
    image.draw_simple_line(x, y, direction, length, unsvg::COLORS[color_index])
}

/// Relies on `std::io::Stderr::write_fmt` to report a draw failure;
/// best-effort, the outcome is discarded.
#[verifier::external_body]
pub(crate) fn report_draw_failure(message: &str) {
    let _ = writeln!(std::io::stderr(), "{}", message);
}

} // verus!
