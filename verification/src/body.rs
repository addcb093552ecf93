//! Point-mass bodies and the plane vectors they live on.
use vstd::prelude::*;

use crate::scalar::{fx_add, fx_mul, fx_norm, fx_sub, Scalar};

verus! {

/// A vector in the simulation plane.
#[derive(Clone, Copy, PartialEq, Eq, Structural, Debug)]
pub struct Vec2 {
    pub x: Scalar,
    pub y: Scalar,
}

impl View for Vec2 {
    type V = (int, int);

    open spec fn view(&self) -> (int, int) {
        (self.x@, self.y@)
    }
}

impl Vec2 {
    /// The zero vector.
    pub fn zero() -> (r: Vec2)
        ensures
            r@ == (0int, 0int),
    {
        Vec2 { x: Scalar::zero(), y: Scalar::zero() }
    }

    /// Build a vector from its components.
    pub fn new(x: Scalar, y: Scalar) -> (r: Vec2)
        ensures
            r@ == (x@, y@),
    {
        Vec2 { x, y }
    }

    /// Component-wise saturating sum.
    pub fn add(self, other: Vec2) -> (r: Vec2)
        ensures
            r@ == (fx_add(self@.0, other@.0), fx_add(self@.1, other@.1)),
    {
        Vec2 { x: self.x.add(other.x), y: self.y.add(other.y) }
    }

    /// Component-wise saturating difference.
    pub fn sub(self, other: Vec2) -> (r: Vec2)
        ensures
            r@ == (fx_sub(self@.0, other@.0), fx_sub(self@.1, other@.1)),
    {
        Vec2 { x: self.x.sub(other.x), y: self.y.sub(other.y) }
    }

    /// Scaling by a fixed-point factor.
    pub fn scale(self, k: Scalar) -> (r: Vec2)
        ensures
            r@ == (fx_mul(self@.0, k@), fx_mul(self@.1, k@)),
    {
        Vec2 { x: self.x.mul(k), y: self.y.mul(k) }
    }

    /// The Euclidean norm, truncated to the grid.
    pub fn norm(self) -> (r: Scalar)
        ensures
            r@ == fx_norm(self@.0, self@.1),
    {
        self.x.hypot(self.y)
    }
}

/// The mathematical content of a [`Body`].
pub struct BodyView {
    pub mass: int,
    pub pos: (int, int),
    pub vel: (int, int),
    pub name: Option<Seq<char>>,
}

/// The distance between two bodies: the norm of the difference of their
/// positions.
pub open spec fn body_dist(a: BodyView, b: BodyView) -> int {
    fx_norm(fx_sub(a.pos.0, b.pos.0), fx_sub(a.pos.1, b.pos.1))
}

/// A point mass: where it is, how it moves, how heavy it is, and an
/// optional name that identifies it to a consumer.
#[derive(Debug)]
pub struct Body {
    pub mass: Scalar,
    pub pos: Vec2,
    pub vel: Vec2,
    pub name: Option<String>,
}

impl View for Body {
    type V = BodyView;

    open spec fn view(&self) -> BodyView {
        BodyView { mass: self.mass@, pos: self.pos@, vel: self.vel@, name: match self.name {
            Some(ref s) => Some(s@),
            None => None,
        } }
    }
}

impl Body {
    /// Build a body from its physical data.
    pub fn new(mass: Scalar, pos: Vec2, vel: Vec2, name: Option<String>) -> (r: Body)
        ensures
            r.mass == mass,
            r.pos == pos,
            r.vel == vel,
            r@.name == match name {
                Some(s) => Some::<Seq<char>>(s@),
                None => None::<Seq<char>>,
            },
    {
        Body { mass, pos, vel, name }
    }

    /// The distance from this body to another.
    pub fn distance_from(&self, other: &Body) -> (r: Scalar)
        ensures
            r@ == body_dist(self@, other@),
    {
        self.pos.sub(other.pos).norm()
    }

    /// An independent copy with the same mathematical content.
    pub fn duplicate(&self) -> (r: Body)
        ensures
            r@ == self@,
    {
        let name: Option<String> = match &self.name {
            Some(s) => Some(s.clone()),
            None => None,
        };
        Body { mass: self.mass, pos: self.pos, vel: self.vel, name }
    }
}

} // verus!
