//! A software rasterizer in fixed-point arithmetic: points, lines and triangles drawn through
//! a pluggable shading program into a color grid with a per-pixel depth test.
//!
//! Coordinates, depths, interpolation weights and color components are `i32` values with
//! sixteen fractional bits (`ONE` is 1.0). The depth test keeps the larger depth: a write
//! passes where the stored depth is strictly less, and a cleared pixel holds `FAR`, below every
//! other depth.

pub mod buffer;
pub mod fixed;
pub mod interpolate;
pub mod primitive;
pub mod program;
pub mod rect;
pub mod screen;
pub mod triangles;
pub mod utils;

pub use buffer::{Buffer, Buffer2d, StrideError};
pub use fixed::ONE;
pub use interpolate::{blend, Interpolate};
pub use primitive::{Kind, Lines, Points, Primitive};
pub use program::{Fragment, Program};
pub use rect::Rect;
pub use screen::{Color, ScreenBuffer, FAR};
pub use triangles::{barycentric, Triangles};
pub use utils::{cross_product, mix};

use vstd::prelude::*;

verus! {

/// `refs` refers to the values of `values`, in order.
pub open spec fn lists<V>(refs: Seq<&V>, values: Seq<V>) -> bool {
    &&& refs.len() == values.len()
    &&& forall|k: int| 0 <= k < refs.len() ==> *#[trigger] refs[k] == values[k]
}

/// The values of `vao` that `indices` select, in the order of `indices`.
pub open spec fn selected<V>(vao: Seq<V>, indices: Seq<usize>) -> Seq<V> {
    Seq::new(indices.len(), |k: int| vao[indices[k] as int])
}

/// A renderer: a screen buffer and the draw calls that fill it.
pub struct TinySR {
    screen: ScreenBuffer,
}

impl TinySR {
    /// The screen buffer drawn into.
    pub closed spec fn screen(&self) -> ScreenBuffer {
        self.screen
    }

    pub open spec fn wf(&self) -> bool {
        self.screen().wf()
    }

    /// A renderer with an empty viewport at the origin.
    pub fn new() -> (r: Self)
        ensures
            r.wf(),
            r.screen().width() == 0,
            r.screen().height() == 0,
    {
        TinySR { screen: ScreenBuffer::new(0, 0, 0, 0) }
    }

    /// Sets the viewport to lower-left corner `(x, y)` and the given size; both grids are
    /// reallocated and cleared to opaque black.
    pub fn set_viewport(&mut self, x: i32, y: i32, width: usize, height: usize)
        requires
            width <= i32::MAX,
            height <= i32::MAX,
            width * height <= usize::MAX,
        ensures
            final(self).wf(),
            final(self).screen().origin_x() == x,
            final(self).screen().origin_y() == y,
            final(self).screen().width() == width,
            final(self).screen().height() == height,
            final(self).screen().cleared_to(screen::opaque_black()),
    {
        self.screen.resize(x, y, width, height);
    }

    pub fn get_screen_buffer(&self) -> (r: &ScreenBuffer)
        ensures
            *r == self.screen(),
    {
        &self.screen
    }

    /// Clears the colors to `color` and the depths to `FAR`.
    pub fn clear_screen(&mut self, color: Color)
        requires
            old(self).wf(),
        ensures
            final(self).wf(),
            final(self).screen().same_viewport(&old(self).screen()),
            final(self).screen().cleared_to(color),
    {
        self.screen.clear(color);
    }

    /// Draws the vertices of `vao` in order as primitives of kind `P`.
    pub fn draw_array<P: Primitive, Pr: Program>(&mut self, program: &Pr, vao: &[Pr::Vertex])
        requires
            old(self).wf(),
        ensures
            exists|refs: Seq<&Pr::Vertex>|
                #[trigger] lists(refs, vao@) && primitive::kind_drawn(
                    P::kind(),
                    program,
                    refs,
                    old(self).screen(),
                    final(self).screen(),
                ),
            final(self).screen().depth_guarded(&old(self).screen()),
            (forall|o: Pr::VertexOut| !program.keeps(o)) ==> final(self).screen().colors() == old(
                self,
            ).screen().colors(),
    {
        let mut refs: Vec<&Pr::Vertex> = Vec::new();
        let mut k: usize = 0;
        while k < vao.len()
            invariant
                k <= vao@.len(),
                lists(refs@, vao@.subrange(0, k as int)),
            decreases vao@.len() - k,
        {
            refs.push(&vao[k]);
            k += 1;
        }
        assert(vao@.subrange(0, vao@.len() as int) =~= vao@);
        P::draw(program, refs.as_slice(), &mut self.screen);
        assert(lists(refs@, vao@));
    }

    /// Draws the vertices of `vao` that `indices` select, in the order of `indices`, as
    /// primitives of kind `P`.
    pub fn draw_elements<P: Primitive, Pr: Program>(
        &mut self,
        program: &Pr,
        vao: &[Pr::Vertex],
        indices: &[usize],
    )
        requires
            old(self).wf(),
            forall|k: int| 0 <= k < indices@.len() ==> #[trigger] indices@[k] < vao@.len(),
        ensures
            exists|refs: Seq<&Pr::Vertex>|
                #[trigger] lists(refs, selected(vao@, indices@)) && primitive::kind_drawn(
                    P::kind(),
                    program,
                    refs,
                    old(self).screen(),
                    final(self).screen(),
                ),
            final(self).screen().depth_guarded(&old(self).screen()),
            (forall|o: Pr::VertexOut| !program.keeps(o)) ==> final(self).screen().colors() == old(
                self,
            ).screen().colors(),
    {
        let mut refs: Vec<&Pr::Vertex> = Vec::new();
        let mut k: usize = 0;
        while k < indices.len()
            invariant
                k <= indices@.len(),
                forall|m: int| 0 <= m < indices@.len() ==> #[trigger] indices@[m] < vao@.len(),
                lists(refs@, selected(vao@, indices@).subrange(0, k as int)),
            decreases indices@.len() - k,
        {
            refs.push(&vao[indices[k]]);
            k += 1;
        }
        assert(selected(vao@, indices@).subrange(0, indices@.len() as int) =~= selected(vao@, indices@));
        P::draw(program, refs.as_slice(), &mut self.screen);
        assert(lists(refs@, selected(vao@, indices@)));
    }
}

impl Default for TinySR {
    fn default() -> (r: Self)
        ensures
            r.wf(),
            r.screen().width() == 0,
            r.screen().height() == 0,
    {
        Self::new()
    }
}

} // verus!
