use vstd::prelude::*;

use crate::fixed::{div_floor_i64, ONE};

verus! {

/// Sum of the weights.
pub open spec fn weight_total(w: Seq<i32>) -> int
    decreases w.len(),
{
    if w.len() == 0 {
        0
    } else {
        weight_total(w.drop_last()) + w.last()
    }
}

/// Fixed-point weights of a convex combination: none negative, and they sum to `ONE`.
pub open spec fn is_convex(w: Seq<i32>) -> bool {
    &&& forall|i: int| 0 <= i < w.len() ==> w[i] >= 0
    &&& weight_total(w) == ONE
}

/// `v[0] * w[0] + v[1] * w[1] + ...`, over the first `w.len()` values.
pub open spec fn weighted_total(v: Seq<i32>, w: Seq<i32>) -> int
    decreases w.len(),
{
    if w.len() == 0 {
        0
    } else {
        weighted_total(v, w.drop_last()) + v[w.len() - 1] * w.last()
    }
}

/// The fixed-point weighted sum of `v` with weights `w`, rounded down.
pub open spec fn weighted_value(v: Seq<i32>, w: Seq<i32>) -> int {
    weighted_total(v, w) / (ONE as int)
}

/// Column `j` of a sequence of arrays.
pub open spec fn column<const M: usize>(v: Seq<[i32; M]>, j: int) -> Seq<i32> {
    Seq::new(v.len(), |i: int| v[i][j])
}

/// A shader output that can be blended: the combination of `N` values under `N` fixed-point
/// weights that form a convex combination.
pub trait Interpolate: Sized {
    /// `r` is the combination of `v` under weights `w`.
    spec fn interpolates(r: Self, v: Seq<Self>, w: Seq<i32>) -> bool;

    fn interpolate<const N: usize>(v: &[Self; N], weights: &[i32; N]) -> (r: Self)
        requires
            is_convex(weights@),
        ensures
            Self::interpolates(r, v@, weights@),
    ;
}

impl Interpolate for i32 {
    open spec fn interpolates(r: i32, v: Seq<i32>, w: Seq<i32>) -> bool {
        r == weighted_value(v, w)
    }

    fn interpolate<const N: usize>(v: &[i32; N], weights: &[i32; N]) -> (r: i32) {
        blend(v.as_slice(), weights.as_slice())
    }
}

impl<const M: usize> Interpolate for [i32; M] {
    open spec fn interpolates(r: [i32; M], v: Seq<[i32; M]>, w: Seq<i32>) -> bool {
        forall|j: int| 0 <= j < M ==> r[j] == weighted_value(#[trigger] column(v, j), w)
    }

    fn interpolate<const N: usize>(v: &[[i32; M]; N], weights: &[i32; N]) -> (r: [i32; M]) {
        let mut res = [0i32; M];
        let mut j: usize = 0;
        while j < M
            invariant
                j <= M,
                is_convex(weights@),
                weights@.len() == N,
                v@.len() == N,
                forall|k: int| 0 <= k < j ==> res[k] == weighted_value(#[trigger] column(v@, k), weights@),
            decreases M - j,
        {
            let mut col: Vec<i32> = Vec::new();
            let mut i: usize = 0;
            while i < N
                invariant
                    i <= N,
                    j < M,
                    v@.len() == N,
                    col@ == column(v@, j as int).subrange(0, i as int),
                decreases N - i,
            {
                col.push(v[i][j]);
                i += 1;
                assert(col@ =~= column(v@, j as int).subrange(0, i as int));
            }
            assert(col@ =~= column(v@, j as int));
            let x = blend(col.as_slice(), weights.as_slice());
            res[j] = x;
            j += 1;
        }
        res
    }
}

/// The weighted sum of `v` under the convex weights `w`, rounded down.
pub fn blend(v: &[i32], w: &[i32]) -> (r: i32)
    requires
        v@.len() == w@.len(),
        is_convex(w@),
    ensures
        r == weighted_value(v@, w@),
{
    let mut total: i64 = 0;
    let mut i: usize = 0;
    proof {
        lemma_prefix_total_bounded(w@, 0);
    }
    while i < w.len()
        invariant
            i <= w@.len(),
            v@.len() == w@.len(),
            is_convex(w@),
            total == weighted_total(v@, w@.subrange(0, i as int)),
            0 <= weight_total(w@.subrange(0, i as int)) <= ONE,
            i32::MIN * weight_total(w@.subrange(0, i as int)) <= total,
            total <= i32::MAX * weight_total(w@.subrange(0, i as int)),
        decreases w@.len() - i,
    {
        let ghost before = w@.subrange(0, i as int);
        let ghost after = w@.subrange(0, i as int + 1);
        let ghost wi = before.len();
        proof {
            assert(after.drop_last() =~= before);
            lemma_weighted_total_prefix(v@, w@, i as int);
            lemma_prefix_total_bounded(w@, i as int + 1);
            let vi = v@[i as int] as int;
            let wgt = w@[i as int] as int;
            assert(i32::MIN * wgt <= vi * wgt <= i32::MAX * wgt) by (nonlinear_arith)
                requires
                    i32::MIN <= vi <= i32::MAX,
                    wgt >= 0,
            ;
        }
        let term = v[i] as i64 * w[i] as i64;
        total = total + term;
        i += 1;
    }
    assert(w@.subrange(0, w@.len() as int) =~= w@);
    let r = div_floor_i64(total, ONE as i64);
    proof {
        let t = total as int;
        vstd::arithmetic::div_mod::lemma_fundamental_div_mod(t, 65536);
        assert(i32::MIN <= t / 65536 <= i32::MAX) by (nonlinear_arith)
            requires
                i32::MIN * 65536 <= t <= i32::MAX * 65536,
                t == 65536 * (t / 65536) + t % 65536,
                0 <= t % 65536 < 65536,
        ;
    }
    r as i32
}

proof fn lemma_weighted_total_prefix(v: Seq<i32>, w: Seq<i32>, i: int)
    requires
        0 <= i < w.len(),
        v.len() == w.len(),
    ensures
        weighted_total(v, w.subrange(0, i + 1)) == weighted_total(v, w.subrange(0, i)) + v[i] * w[i],
        weight_total(w.subrange(0, i + 1)) == weight_total(w.subrange(0, i)) + w[i],
{
    assert(w.subrange(0, i + 1).drop_last() =~= w.subrange(0, i));
}

proof fn lemma_prefix_total_bounded(w: Seq<i32>, k: int)
    requires
        0 <= k <= w.len(),
        forall|i: int| 0 <= i < w.len() ==> w[i] >= 0,
    ensures
        0 <= weight_total(w.subrange(0, k)) <= weight_total(w),
    decreases w.len(),
{
    if w.len() == 0 {
        assert(w.subrange(0, k) =~= w);
    } else if k == w.len() {
        assert(w.subrange(0, k) =~= w);
        lemma_prefix_total_bounded(w.drop_last(), k - 1);
        assert(w.drop_last().subrange(0, k - 1) =~= w.drop_last());
    } else {
        lemma_prefix_total_bounded(w.drop_last(), k);
        assert(w.drop_last().subrange(0, k) =~= w.subrange(0, k));
    }
}

} // verus!
