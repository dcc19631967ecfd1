use vstd::arithmetic::power2::{lemma_pow2_unfold, pow2};
use vstd::prelude::*;

verus! {

/// The first working-set size of each latency sweep, in elements.
pub const SWEEP_START: usize = 64;

/// The lines of each of the two backing arrays of the sequential sweep
/// (2 GiB of 64-byte lines).
pub const SEQUENTIAL_LINES: usize = 33554432;

/// The passes over the working set per sequential measurement.
pub const SEQUENTIAL_PASSES: usize = 64;

/// The nodes of the pointer-chase sequence (64 MiB of 64-byte nodes).
pub const CHASE_NODES: usize = 1048576;

/// The rounds of dereferences per pointer-chase measurement.
pub const CHASE_ROUNDS: usize = 65536;

/// The words of the bandwidth buffer (2 GiB of 8-byte words).
pub const BANDWIDTH_WORDS: usize = 268435456;

/// The passes over the bandwidth buffer per measurement.
pub const BANDWIDTH_PASSES: usize = 128;

/// The working-set sizes a latency sweep runs: `start`, doubled each time,
/// while the size stays within `limit`.
pub fn sweep_sizes(start: usize, limit: usize) -> (r: Vec<usize>)
    requires
        start >= 1,
    ensures
        forall|i: int| 0 <= i < r@.len() ==> #[trigger] r@[i] == start * pow2(i as nat),
        forall|i: int| 0 <= i < r@.len() ==> #[trigger] r@[i] <= limit,
        start * pow2(r@.len()) > limit,
{
    let mut v: Vec<usize> = Vec::new();
    let mut size: usize = start;
    proof {
        vstd::arithmetic::power2::lemma2_to64();
        assert(start * pow2(0) == start);
    }
    while size <= limit
        invariant
            start >= 1,
            size >= 1,
            size as int == start * pow2(v@.len()),
            forall|i: int| 0 <= i < v@.len() ==> #[trigger] v@[i] == start * pow2(i as nat),
            forall|i: int| 0 <= i < v@.len() ==> #[trigger] v@[i] <= limit,
        decreases usize::MAX - size + 1,
    {
        v.push(size);
        proof {
            lemma_pow2_unfold(v@.len());
            assert(start * pow2(v@.len()) == 2 * (start * pow2((v@.len() - 1) as nat))) by (nonlinear_arith)
                requires
                    pow2(v@.len()) == 2 * pow2((v@.len() - 1) as nat),
            ;
        }
        if size > usize::MAX / 2 {
            return v;
        }
        size = size * 2;
    }
    v
}

} // verus!
