use vstd::prelude::*;

verus! {

/// The error of an operation that would leave a strided buffer with a partial record.
#[derive(Debug, Clone, Copy, PartialEq, Eq, Structural)]
pub struct StrideError {
    /// Number of values handed in.
    pub len: usize,
    /// Number of values per record in the buffer.
    pub stride: usize,
}

/// A flat list of values read as consecutive records of `stride` values each.
pub struct Buffer<T> {
    stride: usize,
    data: Vec<T>,
}

impl<T> Buffer<T> {
    /// Values per record.
    pub closed spec fn spec_stride(&self) -> nat {
        self.stride as nat
    }

    /// All values, records laid end to end.
    pub closed spec fn values(&self) -> Seq<T> {
        self.data@
    }

    /// The stride is positive and the values form whole records.
    pub open spec fn wf(&self) -> bool {
        &&& self.spec_stride() > 0
        &&& self.values().len() % self.spec_stride() == 0
    }

    /// Number of whole records.
    pub open spec fn records(&self) -> nat {
        self.values().len() / self.spec_stride()
    }

    /// The values of record `i`.
    pub open spec fn record(&self, i: int) -> Seq<T> {
        self.values().subrange(i * self.spec_stride(), (i + 1) * self.spec_stride())
    }

    pub fn new_empty(stride: usize) -> (r: Self)
        requires
            stride > 0,
        ensures
            r.wf(),
            r.spec_stride() == stride,
            r.values() == Seq::<T>::empty(),
    {
        let r = Buffer { stride, data: Vec::new() };
        assert(0int % (stride as int) == 0) by (nonlinear_arith)
            requires
                stride > 0,
        ;
        r
    }

    pub fn len(&self) -> (r: usize)
        requires
            self.wf(),
        ensures
            r == self.records(),
    {
        self.data.len() / self.stride
    }

    pub fn stride(&self) -> (r: usize)
        ensures
            r == self.spec_stride(),
    {
        self.stride
    }

    pub fn get(&self, i: usize) -> (r: Option<&[T]>)
        requires
            self.wf(),
        ensures
            r.is_some() <==> i < self.records(),
            r matches Some(s) ==> s@ == self.record(i as int),
    {
        let n = self.data.len() / self.stride;
        if i >= n {
            return None;
        }
        proof {
            lemma_record_in_bounds(i as int, n as int, self.stride as int, self.data@.len() as int);
        }
        let start = i * self.stride;
        let end = start + self.stride;
        Some(vstd::slice::slice_subrange(self.data.as_slice(), start, end))
    }

    pub fn get_mut(&mut self, i: usize) -> (r: Option<&mut [T]>)
        requires
            old(self).wf(),
        ensures
            r.is_some() <==> i < old(self).records(),
            r matches Some(s) ==> {
                &&& s@ == old(self).record(i as int)
                &&& final(self).spec_stride() == old(self).spec_stride()
                &&& final(self).values() == old(self).values().subrange(0, i * old(self).spec_stride())
                    + final(s)@ + old(self).values().subrange(
                    (i + 1) * old(self).spec_stride(),
                    old(self).values().len() as int,
                )
            },
            r is None ==> *final(self) == *old(self),
    {
        let n = self.data.len() / self.stride;
        if i >= n {
            return None;
        }
        proof {
            lemma_record_in_bounds(i as int, n as int, self.stride as int, self.data@.len() as int);
        }
        let start = i * self.stride;
        let stride = self.stride;
        let all = self.data.as_mut_slice();
        let (_, rest) = all.split_at_mut(start);
        let (rec, _) = rest.split_at_mut(stride);
        Some(rec)
    }
}

impl<T: Copy> Buffer<T> {
    /// A buffer holding a copy of `v`, provided `v` is a whole number of records.
    pub fn new(stride: usize, v: &[T]) -> (r: Result<Self, StrideError>)
        requires
            stride > 0,
        ensures
            r is Err <==> v@.len() % (stride as nat) != 0,
            r matches Err(e) ==> e == (StrideError { len: v@.len() as usize, stride }),
            r matches Ok(b) ==> {
                &&& b.wf()
                &&& b.spec_stride() == stride
                &&& b.values() == v@
            },
    {
        if v.len() % stride != 0 {
            return Err(StrideError { len: v.len(), stride });
        }
        let mut data: Vec<T> = Vec::new();
        let mut i: usize = 0;
        while i < v.len()
            invariant
                i <= v@.len(),
                data@ == v@.subrange(0, i as int),
            decreases v@.len() - i,
        {
            data.push(v[i]);
            i += 1;
            assert(data@ =~= v@.subrange(0, i as int));
        }
        assert(data@ =~= v@);
        Ok(Buffer { stride, data })
    }

    /// Appends the records of `v`, provided `v` is a whole number of records.
    pub fn push(&mut self, v: &[T]) -> (r: Result<(), StrideError>)
        requires
            old(self).wf(),
            old(self).values().len() + v@.len() <= usize::MAX,
        ensures
            final(self).wf(),
            final(self).spec_stride() == old(self).spec_stride(),
            r is Err <==> v@.len() % old(self).spec_stride() != 0,
            r matches Err(e) ==> e == (StrideError {
                len: v@.len() as usize,
                stride: old(self).spec_stride() as usize,
            }) && *final(self) == *old(self),
            r is Ok ==> final(self).values() == old(self).values() + v@,
    {
        if v.len() % self.stride != 0 {
            return Err(StrideError { len: v.len(), stride: self.stride });
        }
        let ghost start = self.data@;
        let mut i: usize = 0;
        while i < v.len()
            invariant
                i <= v@.len(),
                self.stride == old(self).stride,
                start == old(self).data@,
                self.data@ == start + v@.subrange(0, i as int),
                start.len() + v@.len() <= usize::MAX,
            decreases v@.len() - i,
        {
            self.data.push(v[i]);
            i += 1;
            assert(self.data@ =~= start + v@.subrange(0, i as int));
        }
        assert(self.data@ =~= start + v@);
        proof {
            lemma_mod_sum(start.len() as int, v@.len() as int, self.stride as int);
        }
        Ok(())
    }

    /// Inserts the values of `v` at value position `index`, provided `v` is a whole number of
    /// records.
    pub fn insert(&mut self, index: usize, v: &[T]) -> (r: Result<(), StrideError>)
        requires
            old(self).wf(),
            index <= old(self).values().len(),
            old(self).values().len() + v@.len() <= usize::MAX,
        ensures
            final(self).wf(),
            final(self).spec_stride() == old(self).spec_stride(),
            r is Err <==> v@.len() % old(self).spec_stride() != 0,
            r matches Err(e) ==> e == (StrideError {
                len: v@.len() as usize,
                stride: old(self).spec_stride() as usize,
            }) && *final(self) == *old(self),
            r is Ok ==> final(self).values() == old(self).values().subrange(0, index as int) + v@
                + old(self).values().subrange(index as int, old(self).values().len() as int),
    {
        if v.len() % self.stride != 0 {
            return Err(StrideError { len: v.len(), stride: self.stride });
        }
        let ghost start = self.data@;
        let ghost front = start.subrange(0, index as int);
        let ghost back = start.subrange(index as int, start.len() as int);
        let mut i: usize = 0;
        let mut at: usize = index;
        while i < v.len()
            invariant
                i <= v@.len(),
                at == index + i,
                self.stride == old(self).stride,
                start == old(self).data@,
                front == start.subrange(0, index as int),
                back == start.subrange(index as int, start.len() as int),
                index <= start.len(),
                self.data@ == front + v@.subrange(0, i as int) + back,
                start.len() + v@.len() <= usize::MAX,
            decreases v@.len() - i,
        {
            self.data.insert(at, v[i]);
            i += 1;
            at += 1;
            assert(self.data@ =~= front + v@.subrange(0, i as int) + back);
        }
        assert(self.data@ =~= front + v@ + back);
        proof {
            lemma_mod_sum(start.len() as int, v@.len() as int, self.stride as int);
        }
        Ok(())
    }
}

/// A dense `width x height` grid of values stored row by row.
pub struct Buffer2d<T> {
    width: usize,
    height: usize,
    data: Vec<T>,
}

impl<T> Buffer2d<T> {
    /// Number of columns.
    pub closed spec fn width(&self) -> nat {
        self.width as nat
    }

    /// Number of rows.
    pub closed spec fn height(&self) -> nat {
        self.height as nat
    }

    /// The value in column `x` of row `y`.
    pub closed spec fn at(&self, x: int, y: int) -> T {
        self.data@[cell_index(self.width(), x, y)]
    }

    /// One stored value per cell.
    pub closed spec fn wf(&self) -> bool {
        self.data@.len() == self.width() * self.height()
    }

    /// Whether `(x, y)` names a cell of the grid.
    pub open spec fn contains(&self, x: int, y: int) -> bool {
        0 <= x < self.width() && 0 <= y < self.height()
    }

    /// Every cell of the grid holds `v`.
    pub open spec fn filled_with(&self, v: T) -> bool {
        forall|x: int, y: int| self.contains(x, y) ==> #[trigger] self.at(x, y) == v
    }

    /// `self` is `prev` with cell `(x, y)` set to `v`.
    pub open spec fn is_set(&self, prev: &Self, x: int, y: int, v: T) -> bool {
        &&& self.wf()
        &&& self.width() == prev.width()
        &&& self.height() == prev.height()
        &&& forall|i: int, j: int|
            self.contains(i, j) ==> #[trigger] self.at(i, j) == if i == x && j == y {
                v
            } else {
                prev.at(i, j)
            }
    }

    pub fn size(&self) -> (r: [usize; 2])
        ensures
            r[0] == self.width(),
            r[1] == self.height(),
    {
        [self.width, self.height]
    }

    pub fn get(&self, x: usize, y: usize) -> (r: Option<&T>)
        requires
            self.wf(),
        ensures
            r.is_some() <==> self.contains(x as int, y as int),
            r matches Some(v) ==> *v == self.at(x as int, y as int),
    {
        if x >= self.width || y >= self.height {
            return None;
        }
        let len = self.data.len();
        proof {
            lemma_cell_index(x as int, y as int, self.width() as int, self.height() as int);
            assert(y * self.width <= y * self.width + x < len);
        }
        Some(&self.data[y * self.width + x])
    }

    pub fn get_mut(&mut self, x: usize, y: usize) -> (r: Option<&mut T>)
        requires
            old(self).wf(),
        ensures
            r.is_some() <==> old(self).contains(x as int, y as int),
            r matches Some(v) ==> *v == old(self).at(x as int, y as int) && final(self).is_set(
                old(self),
                x as int,
                y as int,
                *final(v),
            ),
            r is None ==> *final(self) == *old(self),
    {
        if x >= self.width || y >= self.height {
            return None;
        }
        proof {
            lemma_cell_index(x as int, y as int, self.width() as int, self.height() as int);
            assert forall|i: int, j: int|
                0 <= i < self.width() && 0 <= j < self.height() && (i != x || j != y) implies
                #[trigger] cell_index(self.width(), i, j) != cell_index(self.width(), x as int, y as int) by {
                lemma_cell_distinct(i, j, x as int, y as int, self.width() as int);
            }
            assert forall|i: int, j: int|
                0 <= i < self.width() && 0 <= j < self.height() implies
                0 <= #[trigger] cell_index(self.width(), i, j) < self.width() * self.height() by {
                lemma_cell_index(i, j, self.width() as int, self.height() as int);
            }
        }
        let w = self.width;
        let len = self.data.len();
        assert(y * w <= y * w + x < len);
        Some(&mut self.data[y * w + x])
    }
}

impl<T: Copy> Buffer2d<T> {
    /// A grid of the given size with every cell set to `fill`.
    pub fn new(size: [usize; 2], fill: T) -> (r: Self)
        requires
            size[0] * size[1] <= usize::MAX,
        ensures
            r.wf(),
            r.width() == size[0],
            r.height() == size[1],
            r.filled_with(fill),
    {
        let n = size[0] * size[1];
        let mut data: Vec<T> = Vec::new();
        while data.len() < n
            invariant
                data@.len() <= n,
                forall|k: int| 0 <= k < data@.len() ==> data@[k] == fill,
            decreases n - data@.len(),
        {
            data.push(fill);
        }
        let r = Buffer2d { width: size[0], height: size[1], data };
        proof {
            assert forall|x: int, y: int| r.contains(x, y) implies #[trigger] r.at(x, y) == fill by {
                lemma_cell_index(x, y, r.width() as int, r.height() as int);
            }
        }
        r
    }
}

impl<T> Default for Buffer2d<T> {
    /// An empty grid.
    fn default() -> (r: Self)
        ensures
            r.wf(),
            r.width() == 0,
            r.height() == 0,
    {
        let r = Buffer2d { width: 0, height: 0, data: Vec::new() };
        assert(r.data@.len() == 0);
        assert(r.width() == 0);
        assert(r.width() * r.height() == 0);
        r
    }
}

impl<T> Default for Buffer<T> {
    /// An empty buffer of single-value records.
    fn default() -> (r: Self)
        ensures
            r.wf(),
            r.spec_stride() == 1,
            r.values() == Seq::<T>::empty(),
    {
        Self::new_empty(1)
    }
}

/// Position of cell `(x, y)` in the row-by-row storage of a grid `w` cells wide.
pub open spec fn cell_index(w: nat, x: int, y: int) -> int {
    y * w + x
}

proof fn lemma_cell_index(x: int, y: int, w: int, h: int)
    requires
        0 <= x < w,
        0 <= y < h,
    ensures
        0 <= y * w + x < w * h,
{
    assert(0 <= y * w) by (nonlinear_arith)
        requires
            0 <= y,
            0 < w,
    ;
    assert(y * w + x < w * h) by (nonlinear_arith)
        requires
            0 <= x < w,
            0 <= y < h,
    ;
}

proof fn lemma_cell_distinct(i: int, j: int, x: int, y: int, w: int)
    requires
        0 <= i < w,
        0 <= x < w,
        0 <= j,
        0 <= y,
        i != x || j != y,
    ensures
        j * w + i != y * w + x,
{
    if j == y {
    } else if j < y {
        assert(j * w + i < y * w + x) by (nonlinear_arith)
            requires
                0 <= i < w,
                0 <= x,
                j < y,
        ;
    } else {
        assert(j * w >= (y + 1) * w) by (nonlinear_arith)
            requires
                j >= y + 1,
                w > 0,
        ;
        assert((y + 1) * w == y * w + w) by (nonlinear_arith);
    }
}

proof fn lemma_mod_sum(a: int, b: int, s: int)
    requires
        s > 0,
        a >= 0,
        b >= 0,
        a % s == 0,
        b % s == 0,
    ensures
        (a + b) % s == 0,
{
    vstd::arithmetic::div_mod::lemma_mod_adds(a, b, s);
}

proof fn lemma_record_in_bounds(i: int, n: int, s: int, len: int)
    requires
        s > 0,
        len >= 0,
        0 <= i < n,
        n == len / s,
    ensures
        0 <= i * s,
        (i + 1) * s <= len,
        i * s + s == (i + 1) * s,
{
    assert(0 <= i * s) by (nonlinear_arith)
        requires
            0 <= i,
            s > 0,
    ;
    assert((i + 1) * s <= n * s) by (nonlinear_arith)
        requires
            i + 1 <= n,
            s > 0,
    ;
    assert(n * s <= len) by (nonlinear_arith)
        requires
            n == len / s,
            s > 0,
            len >= 0,
    ;
    assert(i * s + s == (i + 1) * s) by (nonlinear_arith);
}

} // verus!
