//! Geometry handed to the render context.
//!
//! The context works in integer device coordinates. Shape flattening is an
//! external collaborator's concern: shapes arrive here already flattened,
//! as a bounding rectangle for fills and as a sequence of path elements
//! for strokes, with every coordinate rounded to a device unit.

use vstd::prelude::*;

verus! {

/// A point in integer device coordinates, before translation.
#[derive(Clone, Copy, PartialEq, Eq, Structural, Debug)]
pub struct Point {
    pub x: i32,
    pub y: i32,
}

impl Point {
    /// The origin.
    pub fn zero() -> (r: Point)
        ensures
            r == (Point { x: 0, y: 0 }),
    {
        Point { x: 0, y: 0 }
    }
}

/// An axis-aligned rectangle with inclusive corners, `(x0, y0)` at the
/// top left and `(x1, y1)` at the bottom right.
#[derive(Clone, Copy, PartialEq, Eq, Structural, Debug)]
pub struct Rect {
    pub x0: i32,
    pub y0: i32,
    pub x1: i32,
    pub y1: i32,
}

impl Rect {
    /// A rectangle is proper when its corners are ordered.
    pub open spec fn wf(self) -> bool {
        self.x0 <= self.x1 && self.y0 <= self.y1
    }
}

/// One element of a flattened path. Curve control points are carried but
/// not honoured: curves degrade to their chords.
#[derive(Clone, Copy, PartialEq, Eq, Structural, Debug)]
pub enum PathEl {
    /// Start a new subpath at the point.
    MoveTo(Point),
    /// A straight line to the point.
    LineTo(Point),
    /// A quadratic bezier: control point, then end point.
    QuadTo(Point, Point),
    /// A cubic bezier: two control points, then end point.
    CurveTo(Point, Point, Point),
    /// A straight line back to the first recorded point of the subpath.
    ClosePath,
}

/// An incoming coordinate transform, reduced to what the context can
/// honour. Only translation is supported; a transform with any rotation,
/// scale or skew component arrives as `NonTranslation` and is rejected.
#[derive(Clone, Copy, PartialEq, Eq, Structural, Debug)]
pub enum Affine {
    /// A pure translation by `(dx, dy)` device units.
    Translate(i32, i32),
    /// A transform with components other than translation.
    NonTranslation,
}

} // verus!
