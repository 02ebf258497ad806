//! The shapes that can be drawn.

use crate::math::Corners;
use crate::math::Rect;
use crate::path::Path;
use crate::path::Point;
use crate::path_brush::PathBrush;
use vstd::prelude::*;

verus! {

/// A circle.
#[derive(Debug, Clone, Copy, PartialEq, Eq, Structural)]
pub struct Circle {
    pub center: Point,
    pub radius: i32,
}

impl Circle {
    /// The circle of radius 0 about the origin.
    pub fn new() -> (c: Circle)
        ensures
            c == (Circle { center: Point { x: 0, y: 0 }, radius: 0 }),
    {
        Circle { center: Point { x: 0, y: 0 }, radius: 0 }
    }

    /// The same circle about `(x, y)`.
    pub fn pos(self, x: i32, y: i32) -> (c: Circle)
        ensures
            c == (Circle { center: Point { x, y }, ..self }),
    {
        Circle { center: Point { x, y }, radius: self.radius }
    }

    /// The same circle with the radius `radius`.
    pub fn radius(self, radius: i32) -> (c: Circle)
        ensures
            c == (Circle { radius, ..self }),
    {
        Circle { center: self.center, radius }
    }
}

/// A rectangle, with rounded corners where it has corner radii.
#[derive(Debug, Clone, Copy, PartialEq, Eq, Structural)]
pub struct Quad {
    pub bounds: Rect,
    pub corners: Corners,
}

impl Quad {
    /// The empty rectangle at the origin, with sharp corners.
    pub fn new() -> (q: Quad)
        ensures
            q == (Quad {
                bounds: Rect { x: 0, y: 0, width: 0, height: 0 },
                corners: Corners { top_left: 0, top_right: 0, bottom_right: 0, bottom_left: 0 },
            }),
    {
        Quad {
            bounds: Rect { x: 0, y: 0, width: 0, height: 0 },
            corners: Corners { top_left: 0, top_right: 0, bottom_right: 0, bottom_left: 0 },
        }
    }

    /// The same quad with the bounds `rect`.
    pub fn rect(self, rect: Rect) -> (q: Quad)
        ensures
            q == (Quad { bounds: rect, ..self }),
    {
        Quad { bounds: rect, corners: self.corners }
    }

    /// The same quad with the corner radii `corners`.
    pub fn corners(self, corners: Corners) -> (q: Quad)
        ensures
            q == (Quad { corners, ..self }),
    {
        Quad { bounds: self.bounds, corners }
    }
}

/// A shape: a circle, a quad, or a path with the brushes of its subpaths.
/// A shape carries no style of its own but for those brushes.
pub enum Primitive {
    Circle(Circle),
    Quad(Quad),
    Path { path: Path, brush: PathBrush },
}

/// A new circle, to be given its place and radius.
pub fn circle() -> (c: Circle)
    ensures
        c == (Circle { center: Point { x: 0, y: 0 }, radius: 0 }),
{
    Circle::new()
}

/// A new quad, to be given its bounds and corners.
pub fn quad() -> (q: Quad)
    ensures
        q.bounds == (Rect { x: 0, y: 0, width: 0, height: 0 }),
        q.corners == (Corners { top_left: 0, top_right: 0, bottom_right: 0, bottom_left: 0 }),
{
    Quad::new()
}

} // verus!
