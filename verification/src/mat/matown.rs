//! Owned dense matrix in column-major storage.
use crate::layout::MatLayout;
use crate::mat::matmut::MatMut;
use crate::mat::matref::MatRef;
use vstd::prelude::*;

verus! {

/// Heap-allocated matrix. Its elements are stored column after column.
#[derive(Clone, Debug)]
pub struct Mat<T> {
    data: Vec<T>,
    nrows: usize,
    ncols: usize,
}

impl<T: Copy> Mat<T> {
    /// The storage holds exactly `nrows * ncols` elements.
    pub closed spec fn wf(&self) -> bool {
        &&& self.data@.len() == self.nrows * self.ncols
        &&& self.data@.len() <= usize::MAX
    }

    pub closed spec fn spec_nrows(&self) -> usize {
        self.nrows
    }

    pub closed spec fn spec_ncols(&self) -> usize {
        self.ncols
    }

    /// The logical matrix, as a sequence of rows.
    pub closed spec fn view(&self) -> Seq<Seq<T>> {
        MatLayout::column_major_spec(self.nrows, self.ncols).model(self.data@)
    }

    /// A matrix of `nrows` by `ncols` copies of `value`.
    pub fn full(nrows: usize, ncols: usize, value: T) -> (r: Self)
        requires
            nrows * ncols <= usize::MAX,
        ensures
            r.wf(),
            r.nrows() == nrows,
            r.ncols() == ncols,
            r@ == Seq::new(nrows as nat, |i: int| Seq::new(ncols as nat, |j: int| value)),
    {
        let len: usize = nrows * ncols;
        let mut data: Vec<T> = Vec::new();
        let mut k: usize = 0;
        while k < len
            invariant
                k <= len,
                data@.len() == k,
                forall|p: int| 0 <= p < k ==> data@[p] == value,
            decreases len - k,
        {
            data.push(value);
            k += 1;
        }
        let layout = MatLayout::column_major(nrows, ncols);
        let r = Mat { data, nrows, ncols };
        proof {
            assert forall|i: int, j: int| layout.has(i, j) implies r@[i][j] == value by {
                assert(0 <= layout.idx(i, j) < len);
            }
            assert(r@ =~~= Seq::new(
                nrows as nat,
                |i: int| Seq::new(ncols as nat, |j: int| value),
            ));
        }
        r
    }

    /// Number of rows.
    #[verifier::when_used_as_spec(spec_nrows)]
    pub fn nrows(&self) -> (r: usize)
        ensures
            r == self.nrows(),
    {
        self.nrows
    }

    /// Number of columns.
    #[verifier::when_used_as_spec(spec_ncols)]
    pub fn ncols(&self) -> (r: usize)
        ensures
            r == self.ncols(),
    {
        self.ncols
    }

    /// A view over the whole matrix.
    pub fn as_ref(&self) -> (r: MatRef<'_, T>)
        requires
            self.wf(),
        ensures
            r.wf(),
            r.nrows() == self.nrows(),
            r.ncols() == self.ncols(),
            r.layout == MatLayout::column_major_spec(self.nrows(), self.ncols()),
            r@ == self@,
    {
        let layout = MatLayout::column_major(self.nrows, self.ncols);
        MatRef { data: self.data.as_slice(), layout }
    }

    /// A mutable view over the whole matrix.
    pub fn as_mut(&mut self) -> (r: MatMut<'_, T>)
        requires
            old(self).wf(),
        ensures
            r.wf(),
            r.nrows() == old(self).nrows(),
            r.ncols() == old(self).ncols(),
            r.layout == MatLayout::column_major_spec(old(self).nrows(), old(self).ncols()),
            r@ == old(self)@,
            final(self).nrows() == old(self).nrows(),
            final(self).ncols() == old(self).ncols(),
            final(self)@ == r.layout.model(final(r.data)@),
            final(r.data)@.len() == r.data@.len() ==> final(self).wf(),
    {
        let layout = MatLayout::column_major(self.nrows, self.ncols);
        MatMut { data: self.data.as_mut_slice(), layout }
    }

    /// Reads the entry in row `i` and column `j`.
    pub fn read(&self, i: usize, j: usize) -> (r: T)
        requires
            self.wf(),
            i < self.nrows(),
            j < self.ncols(),
        ensures
            r == self@[i as int][j as int],
    {
        self.as_ref().read(i, j)
    }

    /// Writes `value` to the entry in row `i` and column `j`.
    pub fn write(&mut self, i: usize, j: usize, value: T)
        requires
            old(self).wf(),
            i < old(self).nrows(),
            j < old(self).ncols(),
        ensures
            final(self).wf(),
            final(self).nrows() == old(self).nrows(),
            final(self).ncols() == old(self).ncols(),
            final(self)@ == old(self)@.update(i as int, old(self)@[i as int].update(j as int, value)),
    {
        let mut m = self.as_mut();
        m.write(i, j, value);
    }
}

} // verus!
