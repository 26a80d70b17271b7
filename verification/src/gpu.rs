//! Batch processing: processor settings, and the split of a work list into
//! batches.
use vstd::prelude::*;

use crate::error::RiemannError;

verus! {

/// Batch `k` of a list of `len` items cut into batches of `batch_size`:
/// the items from `k * batch_size` up to `(k + 1) * batch_size`, or to the
/// end of the list for the last batch.
pub open spec fn batch_bounds(k: int, batch_size: int, len: int) -> (int, int) {
    let start = k * batch_size;
    let end = if (k + 1) * batch_size < len {
        (k + 1) * batch_size
    } else {
        len
    };
    (start, end)
}

/// The number of batches of `batch_size` that `len` items make.
pub open spec fn batch_count(len: nat, batch_size: nat) -> nat {
    if len % batch_size == 0 {
        len / batch_size
    } else {
        len / batch_size + 1
    }
}

/// Splitting `len` items at multiples of `b` up to `nb * b`, with at most
/// one more (possibly shorter) batch after that, makes `batch_count` batches.
proof fn lemma_batch_count(len: nat, b: nat, nb: nat, offset: int)
    requires
        b > 0,
        offset == nb * b,
        offset <= len <= offset + b,
    ensures
        batch_count(len, b) == (if len == offset {
            nb
        } else {
            nb + 1
        }),
{
    if len == offset {
        vstd::arithmetic::div_mod::lemma_fundamental_div_mod_converse_div(
            len as int,
            b as int,
            nb as int,
            0,
        );
        vstd::arithmetic::div_mod::lemma_fundamental_div_mod_converse_mod(
            len as int,
            b as int,
            nb as int,
            0,
        );
    } else if len < offset + b {
        let r = len - offset;
        vstd::arithmetic::div_mod::lemma_fundamental_div_mod_converse_div(
            len as int,
            b as int,
            nb as int,
            r,
        );
        vstd::arithmetic::div_mod::lemma_fundamental_div_mod_converse_mod(
            len as int,
            b as int,
            nb as int,
            r,
        );
    } else {
        assert(len == (nb + 1) * b) by (nonlinear_arith)
            requires
                len == offset + b,
                offset == nb * b,
        ;
        vstd::arithmetic::div_mod::lemma_fundamental_div_mod_converse_div(
            len as int,
            b as int,
            (nb + 1) as int,
            0,
        );
        vstd::arithmetic::div_mod::lemma_fundamental_div_mod_converse_mod(
            len as int,
            b as int,
            (nb + 1) as int,
            0,
        );
    }
}

/// Cut `items` into consecutive batches of `batch_size` items; the last
/// batch holds what is left and may be shorter. Concatenating the batches
/// gives back `items`.
pub fn make_batches<T>(items: Vec<T>, batch_size: usize) -> (batches: Vec<Vec<T>>)
    requires
        batch_size > 0,
    ensures
        batches@.len() == batch_count(items@.len(), batch_size as nat),
        forall|k: int|
            0 <= k < batches@.len() ==> {
                let (start, end) = batch_bounds(k, batch_size as int, items@.len() as int);
                #[trigger] batches@[k]@ == items@.subrange(start, end)
            },
        batches@.map_values(|b: Vec<T>| b@).flatten() == items@,
{
    let ghost all = items@;
    let mut batches: Vec<Vec<T>> = Vec::new();
    let mut rest = items;
    let ghost mut offset: int = 0;
    assert(batches@.map_values(|b: Vec<T>| b@).flatten() =~= all.subrange(0, 0));
    assert(batches@.len() * batch_size == 0) by (nonlinear_arith)
        requires
            batches@.len() == 0,
    ;
    while rest.len() > batch_size
        invariant
            batch_size > 0,
            0 <= offset,
            offset == batches@.len() * batch_size,
            offset + rest@.len() == all.len(),
            rest@ == all.subrange(offset, all.len() as int),
            batches@.map_values(|b: Vec<T>| b@).flatten() == all.subrange(0, offset),
            forall|k: int|
                0 <= k < batches@.len() ==> {
                    let (start, end) = batch_bounds(k, batch_size as int, all.len() as int);
                    #[trigger] batches@[k]@ == all.subrange(start, end)
                },
        decreases rest@.len(),
    {
        let tail = rest.split_off(batch_size);
        proof {
            let k = batches@.len() as int;
            assert((k + 1) * batch_size == k * batch_size + batch_size) by (nonlinear_arith);
            assert(rest@ == all.subrange(offset, offset + batch_size));
        }
        let ghost before = batches@;
        let ghost piece = rest@;
        batches.push(rest);
        proof {
            assert(batches@.map_values(|b: Vec<T>| b@) =~= before.map_values(|b: Vec<T>| b@).push(
                piece,
            ));
            before.map_values(|b: Vec<T>| b@).lemma_flatten_push(piece);
            assert(all.subrange(0, offset) + piece =~= all.subrange(0, offset + batch_size));
        }
        rest = tail;
        proof {
            offset = offset + batch_size;
        }
    }
    let ghost nb = batches@.len();
    if rest.len() > 0 {
        proof {
            let k = batches@.len() as int;
            assert((k + 1) * batch_size == k * batch_size + batch_size) by (nonlinear_arith);
        }
        let ghost before = batches@;
        let ghost piece = rest@;
        batches.push(rest);
        proof {
            assert(batches@.map_values(|b: Vec<T>| b@) =~= before.map_values(|b: Vec<T>| b@).push(
                piece,
            ));
            before.map_values(|b: Vec<T>| b@).lemma_flatten_push(piece);
            assert(all.subrange(0, offset) + piece =~= all);
        }
    } else {
        assert(all.subrange(0, offset) =~= all);
    }
    proof {
        lemma_batch_count(all.len(), batch_size as nat, nb, offset);
    }
    batches
}

/// Batch eigenvalue processor; without a GPU it runs on the CPU.
pub struct GpuBatchProcessor {
    batch_size: usize,
    gpu_enabled: bool,
}

impl View for GpuBatchProcessor {
    type V = (nat, bool);

    /// The batch size and whether a GPU is used.
    closed spec fn view(&self) -> (nat, bool) {
        (self.batch_size as nat, self.gpu_enabled)
    }
}

impl GpuBatchProcessor {
    /// A processor for batches of `batch_size`; this build has no GPU
    /// support, so it computes on the CPU.
    pub fn new(batch_size: usize) -> (r: Result<Self, RiemannError>)
        ensures
            r matches Ok(p) && p@ == (batch_size as nat, false),
    {
        Ok(Self { batch_size, gpu_enabled: false })
    }

    pub fn is_gpu_enabled(&self) -> (b: bool)
        ensures
            b == self@.1,
    {
        self.gpu_enabled
    }

    pub fn batch_size(&self) -> (n: usize)
        ensures
            n == self@.0,
    {
        self.batch_size
    }
}

/// Batch processor that unfolds eigenvalues before measuring them; without
/// a GPU it runs on the CPU.
pub struct GpuBatchProcessorV2 {
    batch_size: usize,
    gpu_enabled: bool,
}

impl View for GpuBatchProcessorV2 {
    type V = (nat, bool);

    /// The batch size and whether a GPU is used.
    closed spec fn view(&self) -> (nat, bool) {
        (self.batch_size as nat, self.gpu_enabled)
    }
}

impl GpuBatchProcessorV2 {
    /// A processor for batches of `batch_size`; this build has no GPU
    /// support, so it computes on the CPU.
    pub fn new(batch_size: usize) -> (r: Result<Self, RiemannError>)
        ensures
            r matches Ok(p) && p@ == (batch_size as nat, false),
    {
        Ok(Self { batch_size, gpu_enabled: false })
    }

    pub fn is_gpu_enabled(&self) -> (b: bool)
        ensures
            b == self@.1,
    {
        self.gpu_enabled
    }

    pub fn batch_size(&self) -> (n: usize)
        ensures
            n == self@.0,
    {
        self.batch_size
    }
}

/// Spectral kernels (histograms, number variance, Delta_3) over spacing
/// data; without a GPU they run on the CPU.
pub struct GpuKernels;

impl GpuKernels {
    pub fn new() -> (k: Self) {
        GpuKernels
    }
}

} // verus!
