//! The few plain values of geometry and color that the surface settings hold.

use vstd::prelude::*;

verus! {

/// A pair of coordinates or of extents.
#[derive(Debug, Clone, Copy, PartialEq, Eq, Structural)]
pub struct Vector2<S> {
    pub x: S,
    pub y: S,
}

impl<S> Vector2<S> {
    /// The vector with the parts `x` and `y`.
    pub fn new(x: S, y: S) -> (v: Vector2<S>)
        ensures
            v.x == x,
            v.y == y,
    {
        Vector2 { x, y }
    }
}

/// A color by its four channels. The library stores the channels and does
/// no arithmetic on them: `S` is whatever the renderer takes.
#[derive(Debug, Clone, Copy)]
pub struct Color<S> {
    pub r: S,
    pub g: S,
    pub b: S,
    pub a: S,
}

impl<S> Color<S> {
    /// The color with the channels `r`, `g`, `b` and `a`.
    pub fn new(r: S, g: S, b: S, a: S) -> (c: Color<S>)
        ensures
            c.r == r,
            c.g == g,
            c.b == b,
            c.a == a,
    {
        Color { r, g, b, a }
    }
}

} // verus!
