//! Scratch matrices carved out of a workspace that the caller provides.
//!
//! A kernel that needs a temporary matrix says how many elements of workspace
//! it needs through a sizing function, and takes the workspace as a mutable
//! slice. The content of the workspace is not read before it is written, and
//! is unspecified when the kernel returns.
use crate::layout::MatLayout;
use crate::mat::matmut::MatMut;
use vstd::prelude::*;

verus! {

/// The amount of workspace an operation needs.
#[derive(Clone, Copy, Debug, PartialEq, Eq, Structural)]
pub struct StackReq {
    /// Number of elements.
    pub size: usize,
}

/// The workspace an operation would need does not fit the address space.
#[derive(Clone, Copy, Debug, PartialEq, Eq, Structural)]
pub struct SizeOverflow {}

/// The workspace that a temporary matrix of `nrows` by `ncols` elements
/// needs: one element of workspace per entry.
pub fn temp_mat_scratch(nrows: usize, ncols: usize) -> (r: Result<StackReq, SizeOverflow>)
    ensures
        nrows * ncols <= usize::MAX ==> r == Ok::<StackReq, SizeOverflow>(
            StackReq { size: (nrows * ncols) as usize },
        ),
        nrows * ncols > usize::MAX ==> r == Err::<StackReq, SizeOverflow>(SizeOverflow {  }),
{
    match nrows.checked_mul(ncols) {
        Some(size) => Ok(StackReq { size }),
        None => Err(SizeOverflow {  }),
    }
}

/// Carves a matrix of `nrows` by `ncols` entries out of the front of `stack`
/// and returns it with the rest of the workspace. The entries of the matrix
/// hold whatever the workspace held.
pub fn temp_mat_uninit<'a, T: Copy>(nrows: usize, ncols: usize, stack: &'a mut [T]) -> (r: (
    MatMut<'a, T>,
    &'a mut [T],
))
    requires
        nrows * ncols <= old(stack)@.len(),
    ensures
        r.0.wf(),
        r.0.nrows() == nrows,
        r.0.ncols() == ncols,
        r.0.layout == MatLayout::column_major_spec(nrows, ncols),
        r.0.data@.len() == nrows * ncols,
        r.0.data@.len() + r.1@.len() == old(stack)@.len(),
        final(stack)@ == final(r.0.data)@ + final(r.1)@,
{
    let total = stack.len();
    proof {
        assert(nrows * ncols <= usize::MAX);
    }
    let size: usize = nrows * ncols;
    let (front, rest) = stack.split_at_mut(size);
    let layout = MatLayout::column_major(nrows, ncols);
    (MatMut { data: front, layout }, rest)
}

} // verus!
