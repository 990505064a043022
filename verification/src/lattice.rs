//! Exact positions and directions of a turtle that turns by eighths of a full
//! turn and moves by whole steps.
//!
//! A direction is one of eight headings, named relative to the direction the
//! turtle set out in. A position is a sum of unit steps along the four
//! headings `Ahead`, `AheadLeft`, `Left` and `BackLeft`; a step along one of
//! the other four headings counts as a negative step along its opposite.
//!
//! In a plane whose first axis points `Ahead` and whose second axis points
//! `Left`, the position lies at
//! `(ahead + (ahead_left - back_left) / sqrt(2),
//!   left + (ahead_left + back_left) / sqrt(2))`.
//! Twice these coordinates, and the square of the distance between two
//! positions, are numbers of the form `whole + root_two * sqrt(2)` with
//! integer parts, so they are computed without rounding. Scaling, rotating
//! and moving a position into a scene is left to the host.

use crate::surd::{Exact, Surd};
use vstd::prelude::*;

verus! {

/// A direction, counted in eighths of a full turn to the left of `Ahead`.
#[derive(Clone, Copy, Debug, PartialEq, Eq, Structural)]
pub enum Heading {
    Ahead,
    AheadLeft,
    Left,
    BackLeft,
    Back,
    BackRight,
    Right,
    AheadRight,
}

impl Heading {
    /// The number of eighth turns to the left that lead from `Ahead` to this
    /// heading.
    pub open spec fn eighths_spec(self) -> int {
        match self {
            Heading::Ahead => 0,
            Heading::AheadLeft => 1,
            Heading::Left => 2,
            Heading::BackLeft => 3,
            Heading::Back => 4,
            Heading::BackRight => 5,
            Heading::Right => 6,
            Heading::AheadRight => 7,
        }
    }

    /// The heading that lies `eighths` eighth turns to the left of `Ahead`,
    /// full turns not counted.
    pub open spec fn of_eighths(eighths: int) -> Heading {
        let rest = eighths % 8;
        if rest == 0 {
            Heading::Ahead
        } else if rest == 1 {
            Heading::AheadLeft
        } else if rest == 2 {
            Heading::Left
        } else if rest == 3 {
            Heading::BackLeft
        } else if rest == 4 {
            Heading::Back
        } else if rest == 5 {
            Heading::BackRight
        } else if rest == 6 {
            Heading::Right
        } else {
            Heading::AheadRight
        }
    }

    /// This heading after `eighths` eighth turns to the left; a negative
    /// number turns to the right.
    pub open spec fn turned(self, eighths: int) -> Heading {
        Heading::of_eighths(self.eighths_spec() + eighths)
    }

    /// The number of eighth turns to the left that lead from `Ahead` to this
    /// heading: 0 to 7.
    pub fn eighths(self) -> (count: u8)
        ensures
            count == self.eighths_spec(),
    {
        match self {
            Heading::Ahead => 0,
            Heading::AheadLeft => 1,
            Heading::Left => 2,
            Heading::BackLeft => 3,
            Heading::Back => 4,
            Heading::BackRight => 5,
            Heading::Right => 6,
            Heading::AheadRight => 7,
        }
    }

    /// The heading `eighths` eighth turns to the left of `Ahead`; eight of
    /// them make a full turn.
    pub fn from_eighths(eighths: u8) -> (heading: Heading)
        ensures
            heading == Heading::of_eighths(eighths as int),
    {
        let rest: u8 = eighths % 8;
        if rest == 0 {
            Heading::Ahead
        } else if rest == 1 {
            Heading::AheadLeft
        } else if rest == 2 {
            Heading::Left
        } else if rest == 3 {
            Heading::BackLeft
        } else if rest == 4 {
            Heading::Back
        } else if rest == 5 {
            Heading::BackRight
        } else if rest == 6 {
            Heading::Right
        } else {
            Heading::AheadRight
        }
    }

    /// Turns to the left by `eighths` eighths of a full turn.
    pub fn turn_left(self, eighths: u8) -> (heading: Heading)
        ensures
            heading == self.turned(eighths as int),
    {
        Heading::from_eighths(self.eighths() + eighths % 8)
    }

    /// Turns to the right by `eighths` eighths of a full turn.
    pub fn turn_right(self, eighths: u8) -> (heading: Heading)
        ensures
            heading == self.turned(-(eighths as int)),
    {
        Heading::from_eighths(self.eighths() + (8 - eighths % 8))
    }
}

/// A turn to the left undoes the same turn to the right, and the other way
/// round.
pub proof fn lemma_opposite_turns_cancel(heading: Heading, eighths: int)
    ensures
        heading.turned(eighths).turned(-eighths) == heading,
        heading.turned(-eighths).turned(eighths) == heading,
{
}

/// A position: the number of unit steps taken along each of four headings,
/// steps against a heading counted as negative.
#[derive(Clone, Copy, Debug, PartialEq, Eq, Structural)]
pub struct Point {
    pub ahead: i32,
    pub ahead_left: i32,
    pub left: i32,
    pub back_left: i32,
}

impl Point {
    /// The position that a turtle sets out from.
    pub open spec fn origin_spec() -> Point {
        Point { ahead: 0, ahead_left: 0, left: 0, back_left: 0 }
    }

    /// Whether a move of `length` steps along `heading` leads to a position
    /// whose coordinates can still be held.
    pub open spec fn can_step(self, heading: Heading, length: int) -> bool {
        match heading {
            Heading::Ahead => self.ahead + length <= i32::MAX,
            Heading::AheadLeft => self.ahead_left + length <= i32::MAX,
            Heading::Left => self.left + length <= i32::MAX,
            Heading::BackLeft => self.back_left + length <= i32::MAX,
            Heading::Back => self.ahead - length >= i32::MIN,
            Heading::BackRight => self.ahead_left - length >= i32::MIN,
            Heading::Right => self.left - length >= i32::MIN,
            Heading::AheadRight => self.back_left - length >= i32::MIN,
        }
    }

    /// The position `length` steps along `heading` from this one.
    pub open spec fn stepped(self, heading: Heading, length: int) -> Point
        recommends
            0 <= length,
            self.can_step(heading, length),
    {
        match heading {
            Heading::Ahead => Point { ahead: (self.ahead + length) as i32, ..self },
            Heading::AheadLeft => Point { ahead_left: (self.ahead_left + length) as i32, ..self },
            Heading::Left => Point { left: (self.left + length) as i32, ..self },
            Heading::BackLeft => Point { back_left: (self.back_left + length) as i32, ..self },
            Heading::Back => Point { ahead: (self.ahead - length) as i32, ..self },
            Heading::BackRight => Point { ahead_left: (self.ahead_left - length) as i32, ..self },
            Heading::Right => Point { left: (self.left - length) as i32, ..self },
            Heading::AheadRight => Point { back_left: (self.back_left - length) as i32, ..self },
        }
    }

    /// The position that a turtle sets out from.
    pub fn origin() -> (point: Point)
        ensures
            point == Point::origin_spec(),
    {
        Point { ahead: 0, ahead_left: 0, left: 0, back_left: 0 }
    }

    /// Moves `length` steps along `heading`. `None` if the coordinate that
    /// the move changes would leave its range.
    pub fn step(self, heading: Heading, length: u32) -> (next: Option<Point>)
        ensures
            next == (if self.can_step(heading, length as int) {
                Some(self.stepped(heading, length as int))
            } else {
                None
            }),
    {
        match heading {
            Heading::Ahead => match forward(self.ahead, length) {
                Some(ahead) => Some(Point { ahead, ..self }),
                None => None,
            },
            Heading::AheadLeft => match forward(self.ahead_left, length) {
                Some(ahead_left) => Some(Point { ahead_left, ..self }),
                None => None,
            },
            Heading::Left => match forward(self.left, length) {
                Some(left) => Some(Point { left, ..self }),
                None => None,
            },
            Heading::BackLeft => match forward(self.back_left, length) {
                Some(back_left) => Some(Point { back_left, ..self }),
                None => None,
            },
            Heading::Back => match backward(self.ahead, length) {
                Some(ahead) => Some(Point { ahead, ..self }),
                None => None,
            },
            Heading::BackRight => match backward(self.ahead_left, length) {
                Some(ahead_left) => Some(Point { ahead_left, ..self }),
                None => None,
            },
            Heading::Right => match backward(self.left, length) {
                Some(left) => Some(Point { left, ..self }),
                None => None,
            },
            Heading::AheadRight => match backward(self.back_left, length) {
                Some(back_left) => Some(Point { back_left, ..self }),
                None => None,
            },
        }
    }
}

/// A coordinate raised by `length`, if the sum can be held.
fn forward(coordinate: i32, length: u32) -> (moved: Option<i32>)
    ensures
        moved == (if coordinate + length <= i32::MAX {
            Some((coordinate + length) as i32)
        } else {
            None
        }),
{
    let sum: i64 = coordinate as i64 + length as i64;
    if sum <= i32::MAX as i64 {
        Some(sum as i32)
    } else {
        None
    }
}

/// A coordinate lowered by `length`, if the difference can be held.
fn backward(coordinate: i32, length: u32) -> (moved: Option<i32>)
    ensures
        moved == (if coordinate - length >= i32::MIN {
            Some((coordinate - length) as i32)
        } else {
            None
        }),
{
    let difference: i64 = coordinate as i64 - length as i64;
    if difference >= i32::MIN as i64 {
        Some(difference as i32)
    } else {
        None
    }
}

/// The squared distance between two positions, in squared steps. Its whole
/// part is the sum of the squares of the four coordinate differences; the
/// products of neighbouring differences make up its multiple of `sqrt(2)`.
pub open spec fn squared_distance_spec(p: Point, q: Point) -> Exact {
    let a = p.ahead - q.ahead;
    let b = p.ahead_left - q.ahead_left;
    let c = p.left - q.left;
    let d = p.back_left - q.back_left;
    Exact { whole: a * a + b * b + c * c + d * d, root_two: a * b + b * c + c * d - a * d }
}

/// The place that lies one step along `heading` from the origin.
pub open spec fn unit_step(heading: Heading) -> Point {
    Point::origin_spec().stepped(heading, 1)
}

/// The product of two coordinate differences stays far inside `i128`.
proof fn lemma_product_bound(x: int, y: int)
    requires
        -0x1_0000_0000 <= x <= 0x1_0000_0000,
        -0x1_0000_0000 <= y <= 0x1_0000_0000,
    ensures
        -0x1_0000_0000_0000_0000 <= x * y <= 0x1_0000_0000_0000_0000,
{
    assert(-0x1_0000_0000_0000_0000 <= x * y <= 0x1_0000_0000_0000_0000) by (nonlinear_arith)
        requires
            -0x1_0000_0000 <= x <= 0x1_0000_0000,
            -0x1_0000_0000 <= y <= 0x1_0000_0000,
    ;
}

/// The parts of a squared distance never leave these bounds, and no two
/// different positions are at distance zero.
pub proof fn lemma_squared_distance_bounds(p: Point, q: Point)
    ensures
        0 <= squared_distance_spec(p, q).whole <= 0x4_0000_0000_0000_0000,
        -0x4_0000_0000_0000_0000 <= squared_distance_spec(p, q).root_two
            <= 0x4_0000_0000_0000_0000,
        squared_distance_spec(p, q).whole == 0 <==> p == q,
{
    let a = p.ahead - q.ahead;
    let b = p.ahead_left - q.ahead_left;
    let c = p.left - q.left;
    let d = p.back_left - q.back_left;
    lemma_product_bound(a, a);
    lemma_product_bound(b, b);
    lemma_product_bound(c, c);
    lemma_product_bound(d, d);
    lemma_product_bound(a, b);
    lemma_product_bound(b, c);
    lemma_product_bound(c, d);
    lemma_product_bound(a, d);
    assert(a * a >= 0 && (a * a == 0 <==> a == 0)) by (nonlinear_arith);
    assert(b * b >= 0 && (b * b == 0 <==> b == 0)) by (nonlinear_arith);
    assert(c * c >= 0 && (c * c == 0 <==> c == 0)) by (nonlinear_arith);
    assert(d * d >= 0 && (d * d == 0 <==> d == 0)) by (nonlinear_arith);
}

/// The squared distance is the one of the plane: four times it is the sum of
/// the squares of the two doubled coordinate differences.
pub proof fn lemma_squared_distance_is_euclidean(p: Point, q: Point)
    ensures
        ({
            let along = p.twice_along_spec().minus(q.twice_along_spec());
            let across = p.twice_across_spec().minus(q.twice_across_spec());
            along.times(along).plus(across.times(across)) == squared_distance_spec(p, q).scaled(4)
        }),
{
    let a = p.ahead - q.ahead;
    let b = p.ahead_left - q.ahead_left;
    let c = p.left - q.left;
    let d = p.back_left - q.back_left;
    assert((2 * a) * (2 * a) + 2 * ((b - d) * (b - d)) + ((2 * c) * (2 * c) + 2 * ((b + d) * (b
        + d))) == 4 * (a * a + b * b + c * c + d * d)) by (nonlinear_arith);
    assert((2 * a) * (b - d) + (b - d) * (2 * a) + ((2 * c) * (b + d) + (b + d) * (2 * c)) == 4 * (
    a * b + b * c + c * d - a * d)) by (nonlinear_arith);
}

/// A move of `length` steps covers the distance `length`, along any heading.
pub proof fn lemma_step_has_its_length(p: Point, heading: Heading, length: int)
    requires
        0 <= length,
        p.can_step(heading, length),
    ensures
        squared_distance_spec(p.stepped(heading, length), p) == (Exact {
            whole: length * length,
            root_two: 0,
        }),
{
    assert(0 * length == 0 && length * 0 == 0 && 0 * 0 == 0) by (nonlinear_arith);
    assert((-length) * (-length) == length * length) by (nonlinear_arith);
    assert(0 * (-length) == 0 && (-length) * 0 == 0) by (nonlinear_arith);
}

/// An eighth turn to the left is a rotation by an eighth of a full turn,
/// from `Ahead` towards `Left`: with `(x, y)` the unit step along a heading
/// and `(x', y')` the unit step along the heading after the turn,
/// `sqrt(2) * x' = x - y` and `sqrt(2) * y' = x + y`.
pub proof fn lemma_eighth_turn_rotates(heading: Heading)
    ensures
        ({
            let x = unit_step(heading).twice_along_spec();
            let y = unit_step(heading).twice_across_spec();
            let turned_x = unit_step(heading.turned(1)).twice_along_spec();
            let turned_y = unit_step(heading.turned(1)).twice_across_spec();
            Exact::sqrt_two().times(turned_x) == x.minus(y) && Exact::sqrt_two().times(turned_y)
                == x.plus(y)
        }),
{
}

impl Point {
    /// Twice the coordinate of this position along `Ahead` in the plane.
    pub open spec fn twice_along_spec(self) -> Exact {
        Exact { whole: 2 * self.ahead, root_two: self.ahead_left - self.back_left }
    }

    /// Twice the coordinate of this position along `Left` in the plane.
    pub open spec fn twice_across_spec(self) -> Exact {
        Exact { whole: 2 * self.left, root_two: self.ahead_left + self.back_left }
    }

    /// Twice the coordinate of this position along `Ahead` in the plane.
    pub fn twice_along(self) -> (doubled: Surd)
        ensures
            doubled@ == self.twice_along_spec(),
    {
        Surd {
            whole: 2 * (self.ahead as i128),
            root_two: self.ahead_left as i128 - self.back_left as i128,
        }
    }

    /// Twice the coordinate of this position along `Left` in the plane.
    pub fn twice_across(self) -> (doubled: Surd)
        ensures
            doubled@ == self.twice_across_spec(),
    {
        Surd {
            whole: 2 * (self.left as i128),
            root_two: self.ahead_left as i128 + self.back_left as i128,
        }
    }

    /// The squared distance to `other`, in squared steps.
    pub fn squared_distance(self, other: Point) -> (distance: Surd)
        ensures
            distance@ == squared_distance_spec(self, other),
    {
        let a: i128 = self.ahead as i128 - other.ahead as i128;
        let b: i128 = self.ahead_left as i128 - other.ahead_left as i128;
        let c: i128 = self.left as i128 - other.left as i128;
        let d: i128 = self.back_left as i128 - other.back_left as i128;
        proof {
            lemma_product_bound(a as int, a as int);
            lemma_product_bound(b as int, b as int);
            lemma_product_bound(c as int, c as int);
            lemma_product_bound(d as int, d as int);
            lemma_product_bound(a as int, b as int);
            lemma_product_bound(b as int, c as int);
            lemma_product_bound(c as int, d as int);
            lemma_product_bound(a as int, d as int);
        }
        Surd { whole: a * a + b * b + c * c + d * d, root_two: a * b + b * c + c * d - a * d }
    }
}

} // verus!
