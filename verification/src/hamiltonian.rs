//! The model systems: the truncated Berry-Keating Hamiltonian, whose matrix
//! in the harmonic-oscillator basis is given here exactly (symbolically), and
//! the Gaussian Unitary Ensemble.
use vstd::prelude::*;

use crate::error::RiemannError;

verus! {

/// One entry of the truncated Berry-Keating matrix in the oscillator basis.
/// Every entry is zero or purely imaginary: `HalfImaginaryRoot` stands for
/// `s * i * sqrt(radicand) / 2`, with `s = -1` when `negative` and `s = 1`
/// otherwise.
#[derive(Clone, Copy, Debug, PartialEq, Eq, Structural)]
pub enum MatrixEntry {
    Zero,
    HalfImaginaryRoot { negative: bool, radicand: usize },
}

/// The entry `<n|H_BK|m>`: `(i/2) sqrt(n)` when `n = m + 1`, `-(i/2) sqrt(m)`
/// when `n = m - 1`, and zero otherwise.
pub open spec fn bk_entry(n: nat, m: nat) -> MatrixEntry {
    if n == m + 1 {
        MatrixEntry::HalfImaginaryRoot { negative: false, radicand: n as usize }
    } else if m == n + 1 {
        MatrixEntry::HalfImaginaryRoot { negative: true, radicand: m as usize }
    } else {
        MatrixEntry::Zero
    }
}

/// The additive inverse of an entry.
pub open spec fn negated(e: MatrixEntry) -> MatrixEntry {
    match e {
        MatrixEntry::Zero => MatrixEntry::Zero,
        MatrixEntry::HalfImaginaryRoot { negative, radicand } => MatrixEntry::HalfImaginaryRoot {
            negative: !negative,
            radicand,
        },
    }
}

/// The Berry-Keating matrix is anti-symmetric: `H[n][m] = -H[m][n]`.
pub proof fn lemma_bk_antisymmetric(n: nat, m: nat)
    ensures
        bk_entry(n, m) == negated(bk_entry(m, n)),
{
}

/// The Berry-Keating matrix is tridiagonal with a zero diagonal: an entry
/// is nonzero exactly when its row and column differ by one.
pub proof fn lemma_bk_tridiagonal(n: nat, m: nat)
    ensures
        (bk_entry(n, m) != MatrixEntry::Zero) <==> (n == m + 1 || m == n + 1),
{
}

/// The off-diagonal entries are `(i/2) sqrt(max(n, m))`: the radicand is
/// the larger of the two indices, and the sign is negative exactly above
/// the diagonal (`n < m`).
pub proof fn lemma_bk_radicand(n: usize, m: usize)
    ensures
        n == m + 1 ==> bk_entry(n as nat, m as nat) == (MatrixEntry::HalfImaginaryRoot {
            negative: false,
            radicand: n,
        }),
        m == n + 1 ==> bk_entry(n as nat, m as nat) == (MatrixEntry::HalfImaginaryRoot {
            negative: true,
            radicand: m,
        }),
        bk_entry(n as nat, m as nat) matches MatrixEntry::HalfImaginaryRoot { negative, radicand }
            ==> radicand == (if n < m {
            m
        } else {
            n
        }) && (negative <==> n < m),
{
}

/// The Berry-Keating Hamiltonian truncated to the first `truncation`
/// harmonic-oscillator states (Srednicki 2011).
pub struct BerryKeatingSystem {
    truncation: usize,
}

impl View for BerryKeatingSystem {
    type V = nat;

    /// The truncation level, which is the matrix dimension.
    closed spec fn view(&self) -> nat {
        self.truncation as nat
    }
}

impl BerryKeatingSystem {
    #[verifier::type_invariant]
    spec fn well_formed(self) -> bool {
        self.truncation > 0
    }

    /// A system of dimension `truncation`; a zero truncation is refused.
    pub fn new(truncation: usize) -> (r: Result<Self, RiemannError>)
        ensures
            truncation == 0 <==> r is Err,
            r matches Err(e) ==> e == RiemannError::InvalidSize(0),
            r matches Ok(s) ==> s@ == truncation,
    {
        if truncation == 0 {
            return Err(RiemannError::InvalidSize(truncation));
        }
        Ok(Self { truncation })
    }

    /// The dimension of the Hilbert space.
    pub fn size(&self) -> (n: usize)
        ensures
            n == self@,
            n > 0,
    {
        proof {
            use_type_invariant(self);
        }
        self.truncation
    }

    /// The matrix entry `<n|H_BK|m>`.
    pub fn matrix_element(&self, n: usize, m: usize) -> (e: MatrixEntry)
        ensures
            e == bk_entry(n as nat, m as nat),
            n == m + 1 ==> e == (MatrixEntry::HalfImaginaryRoot { negative: false, radicand: n }),
            m == n + 1 ==> e == (MatrixEntry::HalfImaginaryRoot { negative: true, radicand: m }),
            n != m + 1 && m != n + 1 ==> e == MatrixEntry::Zero,
    {
        if n > 0 && n - 1 == m {
            MatrixEntry::HalfImaginaryRoot { negative: false, radicand: n }
        } else if m > 0 && m - 1 == n {
            MatrixEntry::HalfImaginaryRoot { negative: true, radicand: m }
        } else {
            MatrixEntry::Zero
        }
    }

    /// The whole `N x N` matrix, row by row.
    pub fn hamiltonian_entries(&self) -> (h: Vec<Vec<MatrixEntry>>)
        ensures
            h@.len() == self@,
            forall|i: int| 0 <= i < self@ ==> #[trigger] h@[i]@.len() == self@,
            forall|i: int, j: int|
                0 <= i < self@ && 0 <= j < self@ ==> #[trigger] h@[i]@[j] == bk_entry(
                    i as nat,
                    j as nat,
                ),
    {
        let n = self.size();
        let mut h: Vec<Vec<MatrixEntry>> = Vec::new();
        let mut i: usize = 0;
        while i < n
            invariant
                n == self@,
                i <= n,
                h@.len() == i,
                forall|a: int| 0 <= a < i ==> #[trigger] h@[a]@.len() == n,
                forall|a: int, b: int|
                    0 <= a < i && 0 <= b < n ==> #[trigger] h@[a]@[b] == bk_entry(
                        a as nat,
                        b as nat,
                    ),
            decreases n - i,
        {
            let mut row: Vec<MatrixEntry> = Vec::new();
            let mut j: usize = 0;
            while j < n
                invariant
                    n == self@,
                    i < n,
                    j <= n,
                    row@.len() == j,
                    forall|b: int| 0 <= b < j ==> #[trigger] row@[b] == bk_entry(i as nat, b as nat),
                decreases n - j,
            {
                row.push(self.matrix_element(i, j));
                j = j + 1;
            }
            h.push(row);
            i = i + 1;
        }
        h
    }
}

/// Gaussian Unitary Ensemble of random Hermitian `size x size` matrices.
pub struct GueSystem {
    size: usize,
    seed: Option<u64>,
}

impl View for GueSystem {
    type V = (nat, Option<u64>);

    /// The matrix dimension and the requested seed.
    closed spec fn view(&self) -> (nat, Option<u64>) {
        (self.size as nat, self.seed)
    }
}

impl GueSystem {
    #[verifier::type_invariant]
    spec fn well_formed(self) -> bool {
        self.size > 0
    }

    /// An ensemble of `size x size` matrices; a zero size is refused.
    pub fn new(size: usize, seed: Option<u64>) -> (r: Result<Self, RiemannError>)
        ensures
            size == 0 <==> r is Err,
            r matches Err(e) ==> e == RiemannError::InvalidSize(0),
            r matches Ok(s) ==> s@ == (size as nat, seed),
    {
        if size == 0 {
            return Err(RiemannError::InvalidSize(size));
        }
        Ok(Self { size, seed })
    }

    /// The matrix dimension.
    pub fn size(&self) -> (n: usize)
        ensures
            n == self@.0,
            n > 0,
    {
        proof {
            use_type_invariant(self);
        }
        self.size
    }
}

} // verus!
