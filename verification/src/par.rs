//! The parallelism handle that every kernel takes and hands down.
//!
//! The kernels of this crate compute each entry from the same operands
//! whatever the handle says, so the handle never shows in a result.
use vstd::prelude::*;

verus! {

/// How much parallelism a kernel may use.
#[derive(Clone, Copy, Debug, PartialEq, Eq, Structural)]
pub enum Par {
    /// Run on the calling thread.
    Sequential,
    /// Use up to the given number of worker threads.
    Rayon(usize),
}

impl Par {
    /// The number of threads the handle stands for; at least one.
    pub open spec fn degree_spec(self) -> usize {
        match self {
            Par::Sequential => 1,
            Par::Rayon(n) => if n == 0 {
                1
            } else {
                n
            },
        }
    }

    /// The number of threads the handle stands for; at least one.
    pub fn degree(self) -> (r: usize)
        ensures
            r == self.degree_spec(),
            r >= 1,
    {
        match self {
            Par::Sequential => 1,
            Par::Rayon(n) => if n == 0 {
                1
            } else {
                n
            },
        }
    }

    /// The handle for each of `n_tasks` sibling tasks that share `self`: a
    /// task runs in parallel only if at least two threads are left for it.
    pub open spec fn split_spec(self, n_tasks: usize) -> Par {
        match self {
            Par::Sequential => Par::Sequential,
            Par::Rayon(n) => if n_tasks > 0 && n / n_tasks >= 2 {
                Par::Rayon(n / n_tasks)
            } else {
                Par::Sequential
            },
        }
    }

    /// The handle for each of `n_tasks` sibling tasks that share `self`.
    pub fn split(self, n_tasks: usize) -> (r: Par)
        ensures
            r == self.split_spec(n_tasks),
    {
        match self {
            Par::Sequential => Par::Sequential,
            Par::Rayon(n) => if n_tasks > 0 && n / n_tasks >= 2 {
                Par::Rayon(n / n_tasks)
            } else {
                Par::Sequential
            },
        }
    }
}

/// The number of threads that `par` stands for.
pub fn parallelism_degree(par: Par) -> (r: usize)
    ensures
        r == par.degree_spec(),
        r >= 1,
{
    par.degree()
}

/// The size of a product, in multiplications, from which the matrix product
/// kernels of the `gemm` crate would use several threads. Calls
/// `gemm::get_threading_threshold`, which reads a setting of the process
/// that any thread may change: nothing is claimed of the value.
#[verifier::external_body]
pub(crate) fn threading_threshold() -> (r: usize) {
    gemm::get_threading_threshold()
}

/// The product of `a` and `b`, or the largest number where the product does
/// not fit.
pub fn saturating_product(a: usize, b: usize) -> (r: usize)
    ensures
        r == if a * b <= usize::MAX {
            a * b
        } else {
            usize::MAX as int
        },
{
    match a.checked_mul(b) {
        Some(p) => p,
        None => usize::MAX,
    }
}

/// Where chunk `idx` starts when `n` items are split in `chunk_count`
/// chunks: the first `n % chunk_count` chunks hold one item more than the
/// others.
pub open spec fn chunk_start(n: int, chunk_count: int, idx: int) -> int {
    let chunk_size = n / chunk_count;
    let rem = n % chunk_count;
    if idx < rem {
        idx * (chunk_size + 1)
    } else {
        rem + idx * chunk_size
    }
}

/// The chunks tile the items: the first starts at zero, each starts where
/// the one before it ends, and the last ends at `n`.
pub proof fn lemma_chunk_start(n: int, chunk_count: int, idx: int)
    requires
        0 <= n,
        0 < chunk_count,
        0 <= idx < chunk_count,
    ensures
        chunk_start(n, chunk_count, 0) == 0,
        chunk_start(n, chunk_count, chunk_count) == n,
        0 <= chunk_start(n, chunk_count, idx) <= chunk_start(n, chunk_count, idx + 1) <= n,
{
    let size = n / chunk_count;
    let rem = n % chunk_count;
    assert(n == size * chunk_count + rem && 0 <= rem < chunk_count && 0 <= size)
        by (nonlinear_arith)
        requires
            size == n / chunk_count,
            rem == n % chunk_count,
            0 <= n,
            0 < chunk_count,
    ;
    assert(0 * (size + 1) == 0 && 0 * size == 0);
    assert(chunk_count * size == size * chunk_count) by (nonlinear_arith);
    assert(0 <= idx * (size + 1) && idx * (size + 1) + (size + 1) == (idx + 1) * (size + 1) && 0
        <= idx * size && idx * size + size == (idx + 1) * size) by (nonlinear_arith)
        requires
            0 <= idx,
            0 <= size,
    ;
    if idx + 1 < rem {
        assert((idx + 1) * (size + 1) <= rem * (size + 1)) by (nonlinear_arith)
            requires
                idx + 1 < rem,
                0 <= size,
        ;
        assert(rem * (size + 1) <= size * chunk_count + rem) by (nonlinear_arith)
            requires
                rem < chunk_count,
                0 <= size,
                0 <= rem,
        ;
    } else if idx < rem {
        assert(idx + 1 == rem);
        assert((idx + 1) * (size + 1) == rem + (idx + 1) * size) by (nonlinear_arith)
            requires
                idx + 1 == rem,
        ;
        assert((idx + 1) * size <= chunk_count * size) by (nonlinear_arith)
            requires
                idx + 1 <= chunk_count,
                0 <= size,
        ;
    } else {
        assert((idx + 1) * size <= chunk_count * size) by (nonlinear_arith)
            requires
                idx + 1 <= chunk_count,
                0 <= size,
        ;
    }
}

/// The start and the length of chunk `idx` when `n` items are split in
/// `chunk_count` chunks.
pub fn par_split_indices(n: usize, idx: usize, chunk_count: usize) -> (r: (usize, usize))
    requires
        chunk_count > 0,
        idx < chunk_count,
    ensures
        r.0 == chunk_start(n as int, chunk_count as int, idx as int),
        r.0 + r.1 == chunk_start(n as int, chunk_count as int, idx + 1),
        r.0 + r.1 <= n,
{
    let chunk_size = n / chunk_count;
    let rem = n % chunk_count;
    proof {
        lemma_chunk_start(n as int, chunk_count as int, idx as int);
        let size = chunk_size as int;
        assert(0 <= idx * (size + 1) && idx * (size + 1) + (size + 1) == (idx + 1) * (size + 1)
            && 0 <= idx * size && idx * size + size == (idx + 1) * size) by (nonlinear_arith)
            requires
                0 <= idx,
                0 <= size,
        ;
    }
    let start: usize = if idx < rem {
        idx * (chunk_size + 1)
    } else {
        rem + idx * chunk_size
    };
    let end: usize = if idx + 1 < rem {
        (idx + 1) * (chunk_size + 1)
    } else {
        rem + (idx + 1) * chunk_size
    };
    (start, end - start)
}

} // verus!
