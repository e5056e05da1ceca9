//! Plane geometry carried by items. Coordinates and widths are IEEE-754
//! binary64 numbers; the engine never computes with them, so they are kept as
//! their bit patterns and copied through unchanged.

use vstd::prelude::*;

verus! {

/// Bit pattern of the binary64 number 1.0.
pub const ONE_BITS: u64 = 0x3FF0_0000_0000_0000;

/// A global location on the board plane.
#[derive(PartialEq, Eq, Structural, Debug, Clone, Copy)]
pub struct Point {
    /// Bit pattern of the x coordinate.
    pub x: u64,
    /// Bit pattern of the y coordinate.
    pub y: u64,
}

impl Point {
    /// The origin of the plane.
    pub fn zero() -> (r: Point)
        ensures
            r.x == 0 && r.y == 0,
    {
        Point { x: 0, y: 0 }
    }
}

/// A CSS-compatible color.
#[derive(Debug)]
pub struct Color(pub String);

impl Clone for Color {
    fn clone(&self) -> (r: Self)
        ensures
            r == *self,
    {
        Color(self.0.clone())
    }
}

/// A descriptor for how to render a line.
#[derive(Debug)]
pub struct Stroke {
    /// Bit pattern of the thickness of the line.
    pub width: u64,
    /// The color of the line.
    pub color: Color,
}

impl Clone for Stroke {
    fn clone(&self) -> (r: Self)
        ensures
            r == *self,
    {
        Stroke { width: self.width, color: self.color.clone() }
    }
}

/// An angle in degrees clockwise, as a bit pattern.
#[derive(PartialEq, Eq, Structural, Debug, Clone, Copy)]
pub struct Angle(pub u64);

/// A mapping used to position objects on the board.
#[derive(PartialEq, Eq, Structural, Debug, Clone, Copy)]
pub struct Transform {
    /// The global coordinate which the object is centered on.
    pub origin: Point,
    /// The image of the X basis vector.
    pub basis_x: Point,
    /// The image of the Y basis vector.
    pub basis_y: Point,
}

/// The identity transform: origin at zero, unit basis vectors.
pub open spec fn identity_transform() -> Transform {
    Transform {
        origin: Point { x: 0, y: 0 },
        basis_x: Point { x: ONE_BITS, y: 0 },
        basis_y: Point { x: 0, y: ONE_BITS },
    }
}

impl Transform {
    /// The identity transform.
    pub fn identity() -> (r: Transform)
        ensures
            r == identity_transform(),
    {
        Transform {
            origin: Point::zero(),
            basis_x: Point { x: ONE_BITS, y: 0 },
            basis_y: Point { x: 0, y: ONE_BITS },
        }
    }
}

impl Default for Transform {
    fn default() -> (r: Transform)
        ensures
            r == identity_transform(),
    {
        Transform::identity()
    }
}

/// A point along a spline.
#[derive(PartialEq, Eq, Structural, Debug, Clone, Copy)]
pub struct SplineNode {
    /// The position of the node.
    pub position: Point,
    /// The direction of the curve at the node.
    pub velocity: Point,
}

/// A curved path, represented as a series of nodes.
#[derive(Debug)]
pub struct Spline {
    /// The nodes the path travels through.
    pub points: Vec<SplineNode>,
}

/// Copies a sequence of plain values element by element.
pub fn copy_vec<T: Copy>(v: &Vec<T>) -> (r: Vec<T>)
    ensures
        r@ == v@,
{
    let mut r: Vec<T> = Vec::with_capacity(v.len());
    let mut i: usize = 0;
    while i < v.len()
        invariant
            i <= v.len(),
            r@ == v@.subrange(0, i as int),
        decreases v.len() - i,
    {
        r.push(v[i]);
        i = i + 1;
    }
    assert(r@ =~= v@);
    r
}

impl View for Spline {
    type V = Seq<SplineNode>;

    open spec fn view(&self) -> Seq<SplineNode> {
        self.points@
    }
}

impl Clone for Spline {
    fn clone(&self) -> (r: Self)
        ensures
            r@ == self@,
    {
        Spline { points: copy_vec(&self.points) }
    }
}

} // verus!
