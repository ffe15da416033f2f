use vstd::prelude::*;

use crate::interpolate::Interpolate;
use crate::screen::Color;

verus! {

/// What the fragment stage decides for a pixel.
#[derive(Debug, Clone, Copy, PartialEq, Eq, Structural)]
pub enum Fragment {
    Keep,
    Discard,
}

/// A shading program: a vertex stage and a fragment stage, both pure functions of their input.
pub trait Program {
    /// The application's vertex record.
    type Vertex;

    /// What the vertex stage hands to the fragment stage.
    type VertexOut: Interpolate + Copy;

    /// Whether `fragment` keeps a pixel whose interpolated input is `vin`. Outside verified code
    /// an implementation gives this, `shade` and `transform` as plain functions that agree with
    /// `fragment` and `vertex`.
    spec fn keeps(&self, vin: Self::VertexOut) -> bool;

    /// The color that `fragment` writes for a kept pixel whose interpolated input is `vin`.
    spec fn shade(&self, vin: Self::VertexOut) -> Color;

    /// The clip-space position and the output that `vertex` gives `v`.
    spec fn transform(&self, v: Self::Vertex) -> ([i32; 4], Self::VertexOut);

    /// Writes the clip-space position `(x, y, z, w)` of `v`, in fixed point, to `position`, and
    /// returns the value to interpolate.
    fn vertex(&self, v: &Self::Vertex, position: &mut [i32; 4]) -> (r: Self::VertexOut)
        ensures
            (*final(position), r) == self.transform(*v),
    ;

    /// Writes the color of a pixel to `color`, and says whether to keep it.
    fn fragment(&self, vin: Self::VertexOut, color: &mut Color) -> (r: Fragment)
        ensures
            r == Fragment::Keep <==> self.keeps(vin),
            r == Fragment::Keep ==> *final(color) == self.shade(vin),
    ;
}

} // verus!
