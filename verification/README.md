# riemann_solver

A toolkit for spectral experiments around the Riemann zeta zeros: random
matrices (GUE), the truncated Berry-Keating Hamiltonian, the Born oscillator,
spacing and rigidity statistics of zeros and eigenvalues, and prime gaps.

Layout:

- `src/` is the library, checked by Verus. It holds the exact parts of the
  toolkit: the sieve of Eratosthenes and prime-gap summaries (proved to
  produce exactly the primes up to the bound, and exact sums, modes and
  percentiles of the gaps), the symbolic Berry-Keating matrix (proved
  tridiagonal, purely imaginary and anti-symmetric), the layout of the real
  symmetric form of a complex Hermitian matrix, the thinning of its doubled
  spectrum, the split of work lists into batches, and the configuration and
  record types.
- `tests/` runs the library on concrete inputs.
- `app/` is the command-line program. It holds everything that computes in
  floating point (matrix generation, eigenvalues, unfolding, spacing and
  rigidity statistics, the Kolmogorov-Smirnov test), thread pools, JSON
  output and file input, on top of the library.
