//! The stroke width of a segment: thick near the start of the path, thinner
//! with the distance from it.
//!
//! The progress of a position is `1 - n / d`, where `n` is its squared
//! distance from the start of the path and `d` the squared length of the
//! path; the width is interpolated linearly between the width at progress 0
//! and the width at progress 1. The progress is not clamped: beyond the
//! length of the path it is negative, and the width falls below the width at
//! progress 0.

use crate::lattice::{lemma_squared_distance_bounds, squared_distance_spec, Point};
use crate::surd::{Exact, Surd};
use vstd::prelude::*;

verus! {

/// The width at progress 0: as far from the start as the path is long.
pub const WIDTH_AT_ZERO: i128 = 5;

/// The width at progress 1: at the start of the path.
pub const WIDTH_AT_ONE: i128 = 10;

/// A stroke width as an exact quotient: `numerator / denominator`.
#[derive(Clone, Copy, Debug, PartialEq, Eq, Structural)]
pub struct StrokeWidth {
    pub numerator: Surd,
    pub denominator: Surd,
}

/// The numerator of the width of a stroke, where `near` is the squared
/// distance from the start of the path and `span` the squared length of the
/// path: with `1 - t = near / span` and `t = (span - near) / span`, the width
/// `(1 - t) * WIDTH_AT_ZERO + t * WIDTH_AT_ONE` is this number over `span`.
pub open spec fn interpolated(near: Exact, span: Exact) -> Exact {
    near.scaled(WIDTH_AT_ZERO as int).plus(span.minus(near).scaled(WIDTH_AT_ONE as int))
}

/// The width of a stroke that starts at `position`, on a path from
/// `path_start` to `path_end`: the linear interpolation between
/// `WIDTH_AT_ZERO` and `WIDTH_AT_ONE` at the progress of `position`. `None`
/// if the path has no length, where the progress is undefined.
pub fn stroke_width(position: Point, path_start: Point, path_end: Point) -> (width: Option<
    StrokeWidth,
>)
    ensures
        width is None <==> path_start == path_end,
        width matches Some(w) ==> w.numerator@ == interpolated(
            squared_distance_spec(position, path_start),
            squared_distance_spec(path_start, path_end),
        ) && w.denominator@ == squared_distance_spec(path_start, path_end),
{
    let near = position.squared_distance(path_start);
    let span = path_start.squared_distance(path_end);
    proof {
        lemma_squared_distance_bounds(position, path_start);
        lemma_squared_distance_bounds(path_start, path_end);
    }
    assert(0 <= near.whole <= 0x4_0000_0000_0000_0000);
    assert(0 <= span.whole <= 0x4_0000_0000_0000_0000);
    assert(-0x4_0000_0000_0000_0000 <= near.root_two <= 0x4_0000_0000_0000_0000);
    assert(-0x4_0000_0000_0000_0000 <= span.root_two <= 0x4_0000_0000_0000_0000);
    if span.whole == 0 {
        return None;
    }
    Some(
        StrokeWidth {
            numerator: Surd {
                whole: near.whole * WIDTH_AT_ZERO + (span.whole - near.whole) * WIDTH_AT_ONE,
                root_two: near.root_two * WIDTH_AT_ZERO + (span.root_two - near.root_two)
                    * WIDTH_AT_ONE,
            },
            denominator: span,
        },
    )
}

} // verus!
