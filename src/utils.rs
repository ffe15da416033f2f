use vstd::prelude::*;

use crate::fixed::{div_floor_i64, saturate, saturate_i64, ONE};
use crate::screen::Color;

verus! {

/// Component `i` of the blend of `a` toward `b` by the fixed-point fraction `t`:
/// `a + t * (b - a)`, rounded down and saturated to `i32`.
pub open spec fn mix_component(a: i32, b: i32, t: i32) -> int {
    saturate(a + (t * (b - a)) / (ONE as int))
}

/// `a + t * (b - a)` for each component, with `t` a fixed-point fraction.
pub fn mix(a: Color, b: Color, t: i32) -> (r: Color)
    ensures
        forall|i: int| 0 <= i < 4 ==> r[i] == mix_component(a[i], b[i], t),
{
    let mut res: Color = [0, 0, 0, 0];
    let mut i: usize = 0;
    while i < 4
        invariant
            i <= 4,
            forall|k: int| 0 <= k < i ==> res[k] == mix_component(a[k], b[k], t),
        decreases 4 - i,
    {
        let d = b[i] as i64 - a[i] as i64;
        proof {
            let dd = d as int;
            let tt = t as int;
            assert(-0x7fff_ffff_8000_0000 <= tt * dd <= 0x7fff_ffff_8000_0000) by (nonlinear_arith)
                requires
                    -0x8000_0000 <= tt <= 0x8000_0000,
                    -0xffff_ffff <= dd <= 0xffff_ffff,
            ;
            let q = (tt * dd) / 65536;
            vstd::arithmetic::div_mod::lemma_fundamental_div_mod(tt * dd, 65536);
            assert(-0x8000_0000_0000 <= q <= 0x8000_0000_0000);
        }
        let step = div_floor_i64(t as i64 * d, ONE as i64);
        res[i] = saturate_i64(a[i] as i64 + step);
        i += 1;
    }
    res
}

/// The cross product of two 3-vectors whose components are below 2^62 in magnitude.
pub fn cross_product(a: [i128; 3], b: [i128; 3]) -> (r: [i128; 3])
    requires
        forall|i: int| 0 <= i < 3 ==> -0x4000_0000_0000_0000 <= #[trigger] a[i] <= 0x4000_0000_0000_0000,
        forall|i: int| 0 <= i < 3 ==> -0x4000_0000_0000_0000 <= #[trigger] b[i] <= 0x4000_0000_0000_0000,
    ensures
        r[0] == a[1] * b[2] - a[2] * b[1],
        r[1] == a[2] * b[0] - a[0] * b[2],
        r[2] == a[0] * b[1] - a[1] * b[0],
{
    proof {
        assert forall|i: int, j: int| 0 <= i < 3 && 0 <= j < 3 implies
            -0x1000_0000_0000_0000_0000_0000_0000_0000 <= #[trigger] (a[i] * b[j]) <= 0x1000_0000_0000_0000_0000_0000_0000_0000 by {
            let x = a[i] as int;
            let y = b[j] as int;
            assert(-0x1000_0000_0000_0000_0000_0000_0000_0000 <= x * y <= 0x1000_0000_0000_0000_0000_0000_0000_0000) by (nonlinear_arith)
                requires
                    -0x4000_0000_0000_0000 <= x <= 0x4000_0000_0000_0000,
                    -0x4000_0000_0000_0000 <= y <= 0x4000_0000_0000_0000,
            ;
        }
    }
    [a[1] * b[2] - a[2] * b[1], a[2] * b[0] - a[0] * b[2], a[0] * b[1] - a[1] * b[0]]
}

} // verus!
