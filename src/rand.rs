use vstd::prelude::*;
use crate::line::Point;
use ::rand::Rng;

verus! {

/// Relies on rand's `thread_rng().gen_range(start..end)`: a value drawn
/// from the half-open range; it panics only on an empty range.
#[verifier::external_body]
fn gen_range_i64(start: i64, end: i64) -> (r: i64)
    requires
        start < end,
    ensures
        start <= r < end,
{
    ::rand::thread_rng().gen_range(start..end)
}

/// A uniformly drawn integer of the half-open range `range`.
pub fn random_range(range: core::ops::Range<i64>) -> (r: i64)
    requires
        range.start < range.end,
    ensures
        range.start <= r < range.end,
{
    gen_range_i64(range.start, range.end)
}

/// A point whose two coordinates are drawn independently from `range`.
pub fn random_vec2_range(range: core::ops::Range<i64>) -> (r: Point)
    requires
        range.start < range.end,
    ensures
        range.start <= r.x < range.end,
        range.start <= r.y < range.end,
{
    let x = random_range(range.start..range.end);
    let y = random_range(range);
    Point { x, y }
}

} // verus!
