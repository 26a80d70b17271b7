//! Eigenvalue solvers: the exact parts, namely how a complex Hermitian
//! `n x n` matrix is laid out as a real symmetric `2n x 2n` matrix, and how
//! the doubled spectrum of that real matrix is thinned back to `n` values.
use vstd::prelude::*;

use crate::error::RiemannError;

verus! {

/// Which part of a complex entry a real entry takes.
#[derive(Clone, Copy, Debug, PartialEq, Eq, Structural)]
pub enum RealPart {
    /// The real part.
    Re,
    /// The imaginary part.
    Im,
    /// The imaginary part, negated.
    NegIm,
}

/// A real entry of the `2n x 2n` matrix: part `part` of the complex entry
/// at (`row`, `col`).
#[derive(Clone, Copy, Debug, PartialEq, Eq, Structural)]
pub struct RealSource {
    pub row: usize,
    pub col: usize,
    pub part: RealPart,
}

/// Where entry (`r`, `c`) of the real `2n x 2n` matrix comes from. With
/// `H = A + iB`, the real matrix is `[[A, -B], [B, A]]`.
pub open spec fn realified_source_spec(n: nat, r: nat, c: nat) -> RealSource {
    let (i, lower) = if r < n {
        (r, false)
    } else {
        ((r - n) as nat, true)
    };
    let (j, right) = if c < n {
        (c, false)
    } else {
        ((c - n) as nat, true)
    };
    let part = if lower == right {
        RealPart::Re
    } else if lower {
        RealPart::Im
    } else {
        RealPart::NegIm
    };
    RealSource { row: i as usize, col: j as usize, part }
}

/// The source of the mirrored real entry: the transposed complex entry,
/// with the imaginary part negated. Taking it from `conj(H[j][i])` instead
/// of `H[i][j]` gives the same real number, so the real matrix is
/// symmetric whenever `H` is Hermitian.
pub open spec fn mirrored(s: RealSource) -> RealSource {
    RealSource {
        row: s.col,
        col: s.row,
        part: match s.part {
            RealPart::Re => RealPart::Re,
            RealPart::Im => RealPart::NegIm,
            RealPart::NegIm => RealPart::Im,
        },
    }
}

/// The real `2n x 2n` layout is symmetric for a Hermitian input: entry
/// (`c`, `r`) is taken from the conjugate-transposed position of entry
/// (`r`, `c`).
pub proof fn lemma_realified_symmetric(n: nat, r: nat, c: nat)
    requires
        r < 2 * n,
        c < 2 * n,
    ensures
        realified_source_spec(n, c, r) == mirrored(realified_source_spec(n, r, c)),
{
}

/// Every real entry reads an entry inside the `n x n` complex matrix.
pub proof fn lemma_realified_in_bounds(n: nat, r: nat, c: nat)
    requires
        r < 2 * n,
        c < 2 * n,
    ensures
        realified_source_spec(n, r, c).row < n,
        realified_source_spec(n, r, c).col < n,
{
}

/// For `H = A + iB` the real form is `[[A, -B], [B, A]]`: the diagonal
/// blocks take `Re H`, the lower-left block takes `Im H` and the upper-right
/// block takes `-Im H`, each at the position inside its block.
pub proof fn lemma_realified_blocks(n: nat, r: nat, c: nat)
    requires
        r < 2 * n,
        c < 2 * n,
        n <= usize::MAX,
    ensures
        r < n && c < n ==> realified_source_spec(n, r, c) == (RealSource {
            row: r as usize,
            col: c as usize,
            part: RealPart::Re,
        }),
        r >= n && c >= n ==> realified_source_spec(n, r, c) == (RealSource {
            row: (r - n) as usize,
            col: (c - n) as usize,
            part: RealPart::Re,
        }),
        r >= n && c < n ==> realified_source_spec(n, r, c) == (RealSource {
            row: (r - n) as usize,
            col: c as usize,
            part: RealPart::Im,
        }),
        r < n && c >= n ==> realified_source_spec(n, r, c) == (RealSource {
            row: r as usize,
            col: (c - n) as usize,
            part: RealPart::NegIm,
        }),
{
}

/// Where entry (`r`, `c`) of the real `2n x 2n` form of a complex `n x n`
/// matrix comes from.
pub fn realified_source(n: usize, r: usize, c: usize) -> (s: RealSource)
    requires
        r < 2 * n,
        c < 2 * n,
    ensures
        s == realified_source_spec(n as nat, r as nat, c as nat),
        s.row < n,
        s.col < n,
        r < n && c < n ==> s == (RealSource { row: r, col: c, part: RealPart::Re }),
        r >= n && c >= n ==> s == (RealSource {
            row: (r - n) as usize,
            col: (c - n) as usize,
            part: RealPart::Re,
        }),
        r >= n && c < n ==> s == (RealSource { row: (r - n) as usize, col: c, part: RealPart::Im }),
        r < n && c >= n ==> s == (RealSource {
            row: r,
            col: (c - n) as usize,
            part: RealPart::NegIm,
        }),
{
    let (i, lower) = if r < n {
        (r, false)
    } else {
        (r - n, true)
    };
    let (j, right) = if c < n {
        (c, false)
    } else {
        (c - n, true)
    };
    let part = if lower == right {
        RealPart::Re
    } else if lower {
        RealPart::Im
    } else {
        RealPart::NegIm
    };
    RealSource { row: i, col: j, part }
}

/// The entries at even positions, in order: `r[k] == v[2k]`. The real form
/// of an `n x n` Hermitian matrix has each eigenvalue twice, so taking
/// every second sorted eigenvalue recovers the `n` eigenvalues.
pub fn select_every_second<T: Copy>(v: &Vec<T>) -> (r: Vec<T>)
    ensures
        r@.len() == (v@.len() + 1) / 2,
        forall|k: int| 0 <= k < r@.len() ==> #[trigger] r@[k] == v@[2 * k],
{
    let half = v.len() / 2 + v.len() % 2;
    let mut r: Vec<T> = Vec::new();
    let mut k: usize = 0;
    while k < half
        invariant
            half == (v@.len() + 1) / 2,
            k <= half,
            r@.len() == k,
            forall|q: int| 0 <= q < k ==> #[trigger] r@[q] == v@[2 * q],
        decreases half - k,
    {
        assert(2 * k < v.len());
        r.push(v[2 * k]);
        k = k + 1;
    }
    r
}

/// Dense solver for Hermitian matrices through their real symmetric form.
pub struct LapackSolver;

impl LapackSolver {
    pub fn new() -> (s: Self) {
        LapackSolver
    }
}

/// Solver for batches of matrices; without a GPU it runs on the CPU.
pub struct GpuSolver {
    gpu_enabled: bool,
}

impl View for GpuSolver {
    type V = bool;

    /// Whether a GPU is used.
    closed spec fn view(&self) -> bool {
        self.gpu_enabled
    }
}

impl GpuSolver {
    /// A solver that computes on the CPU: this build has no GPU support, so
    /// the request `use_gpu` falls back to the CPU.
    pub fn new(use_gpu: bool) -> (r: Result<Self, RiemannError>)
        ensures
            r matches Ok(s) && !s@,
    {
        Ok(Self { gpu_enabled: false })
    }

    pub fn is_gpu_enabled(&self) -> (b: bool)
        ensures
            b == self@,
    {
        self.gpu_enabled
    }
}

} // verus!
