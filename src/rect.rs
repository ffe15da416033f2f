use vstd::prelude::*;

verus! {

/// An axis-aligned rectangle given by its origin (lower-left corner) and its size.
pub struct Rect<T> {
    pub origin: [T; 2],
    pub size: [T; 2],
}

impl<T> Rect<T> {
    pub fn new(x: T, y: T, width: T, height: T) -> (r: Self)
        ensures
            r.origin@ == seq![x, y],
            r.size@ == seq![width, height],
    {
        let r = Rect { origin: [x, y], size: [width, height] };
        proof {
            assert(r.origin@ =~= seq![x, y]);
            assert(r.size@ =~= seq![width, height]);
        }
        r
    }
}

impl<T: Default> Default for Rect<T> {
    /// A rectangle whose origin and size components are all `T::default()`.
    fn default() -> Self {
        Rect { origin: [T::default(), T::default()], size: [T::default(), T::default()] }
    }
}

} // verus!
