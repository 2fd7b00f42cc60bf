//! Vertex ordering for the triangle fill.

use vstd::prelude::*;
use crate::canvas::Point;
use crate::canvas::helpers::{is_permutation, precedes, sorted_by_height};

verus! {

/// Sorts three points by descending `y`, ties by ascending `x`, as
/// [`helpers::sort_vectors`](crate::canvas::helpers::sort_vectors) does.
pub fn sort_vectors(p1: Point, p2: Point, p3: Point) -> (r: (Point, Point, Point))
    ensures
        r == sorted_by_height(p1, p2, p3),
        precedes(r.0, r.1),
        precedes(r.1, r.2),
        is_permutation(r, p1, p2, p3),
{
    crate::canvas::helpers::sort_vectors(p1, p2, p3)
}

} // verus!
