use rayon::prelude::{IntoParallelRefIterator, IntoParallelRefMutIterator, ParallelIterator};
use vstd::prelude::*;

verus! {

/// The XOR of all words of `s`; zero for none.
pub open spec fn xor_all(s: Seq<u64>) -> u64
    decreases s.len(),
{
    if s.len() == 0 {
        0
    } else {
        xor_all(s.drop_last()) ^ s.last()
    }
}

/// `x` folded into a zero accumulator `n` times: `x` for odd `n`, else zero.
pub open spec fn repeat_xor(x: u64, n: nat) -> u64
    decreases n,
{
    if n == 0 {
        0
    } else {
        repeat_xor(x, (n - 1) as nat) ^ x
    }
}

/// The XOR of the XORs of each part.
pub open spec fn xor_of_parts(parts: Seq<Seq<u64>>) -> u64
    decreases parts.len(),
{
    if parts.len() == 0 {
        0
    } else {
        xor_all(parts.first()) ^ xor_of_parts(parts.drop_first())
    }
}

/// The combining step of the parallel reduction.
pub fn xor_combine(a: u64, b: u64) -> (r: u64)
    ensures
        r == a ^ b,
{
    a ^ b
}

/// The per-item step of the parallel fill.
pub fn set_word(x: &mut u64, c: u64)
    ensures
        *final(x) == c,
{
    *x = c;
}

/// Relies on rayon's `ParallelIterator::reduce` over the buffer's words with
/// identity zero and `xor_combine`: XOR is associative and commutative with
/// zero as identity, so however rayon splits and orders the work, the result
/// is the XOR of all words.
#[verifier::external_body]
fn parallel_xor(v: &Vec<u64>) -> (r: u64)
    ensures
        r == xor_all(v@),
{
    v.par_iter().cloned().reduce(|| 0u64, xor_combine)
}

/// Relies on rayon's `ParallelIterator::for_each` over the buffer's words,
/// which applies `set_word` to every word once before it returns.
#[verifier::external_body]
fn parallel_fill(v: &mut Vec<u64>, c: u64)
    ensures
        final(v)@ == Seq::new(old(v)@.len(), |i: int| c),
{
    v.par_iter_mut().for_each(|x| set_word(x, c))
}

/// The XOR of all words, one after another on the calling thread.
pub fn xor_sequential(v: &Vec<u64>) -> (r: u64)
    ensures
        r == xor_all(v@),
{
    let mut acc: u64 = 0;
    let mut i: usize = 0;
    while i < v.len()
        invariant
            i <= v@.len(),
            acc == xor_all(v@.subrange(0, i as int)),
        decreases v@.len() - i,
    {
        proof {
            assert(v@.subrange(0, i + 1).drop_last() =~= v@.subrange(0, i as int));
        }
        acc = acc ^ v[i];
        i += 1;
    }
    proof {
        assert(v@.subrange(0, v@.len() as int) =~= v@);
    }
    acc
}

/// The XOR of all words, reduced by parallel workers over disjoint ranges.
pub fn xor_parallel(v: &Vec<u64>) -> (r: u64)
    ensures
        r == xor_all(v@),
{
    parallel_xor(v)
}

/// Writes `c` into every word of the buffer, from parallel workers over
/// disjoint ranges; all have finished when this returns.
pub fn fill_parallel(v: &mut Vec<u64>, c: u64)
    ensures
        final(v)@ == Seq::new(old(v)@.len(), |i: int| c),
{
    parallel_fill(v, c)
}

/// `n` words drawn from `rng`.
pub fn random_words(n: usize, rng: &mut rand::rngs::StdRng) -> (r: Vec<u64>)
    ensures
        r@.len() == n,
{
    let mut v: Vec<u64> = Vec::new();
    let mut i: usize = 0;
    while i < n
        invariant
            i <= n,
            v@.len() == i,
        decreases n - i,
    {
        v.push(crate::random::random_u64(rng));
        i += 1;
    }
    v
}

/// The timed part of the write probe: one parallel pass per value, each
/// flooding the buffer with that value, then folding the buffer's first word
/// into the accumulator. Returns the accumulator, which is the XOR of the
/// values; the buffer ends holding the last value everywhere.
pub fn write_passes(arr: &mut Vec<u64>, values: &Vec<u64>) -> (r: u64)
    requires
        old(arr)@.len() >= 1,
    ensures
        r == xor_all(values@),
        values@.len() == 0 ==> final(arr)@ == old(arr)@,
        values@.len() > 0 ==> final(arr)@ == Seq::new(old(arr)@.len(), |i: int| values@.last()),
{
    let mut acc: u64 = 0;
    let mut k: usize = 0;
    while k < values.len()
        invariant
            k <= values@.len(),
            old(arr)@.len() >= 1,
            arr@.len() == old(arr)@.len(),
            acc == xor_all(values@.subrange(0, k as int)),
            k == 0 ==> arr@ == old(arr)@,
            k > 0 ==> arr@ == Seq::new(old(arr)@.len(), |i: int| values@[k - 1]),
        decreases values@.len() - k,
    {
        fill_parallel(arr, values[k]);
        proof {
            assert(values@.subrange(0, k + 1).drop_last() =~= values@.subrange(0, k as int));
        }
        acc = acc ^ arr[0];
        k += 1;
    }
    proof {
        assert(values@.subrange(0, values@.len() as int) =~= values@);
    }
    acc
}

/// The timed part of the read probe: `passes` parallel XOR reductions of the
/// whole buffer, each folded into an accumulator that starts at zero.
pub fn read_passes(arr: &Vec<u64>, passes: usize) -> (r: u64)
    ensures
        r == repeat_xor(xor_all(arr@), passes as nat),
{
    let mut acc: u64 = 0;
    let mut k: usize = 0;
    while k < passes
        invariant
            k <= passes,
            acc == repeat_xor(xor_all(arr@), k as nat),
        decreases passes - k,
    {
        acc = acc ^ xor_parallel(arr);
        k += 1;
    }
    acc
}

/// Splitting a buffer in two anywhere leaves its XOR unchanged: the XOR of
/// the whole is the XOR of the two parts' XORs.
pub proof fn lemma_xor_concat(a: Seq<u64>, b: Seq<u64>)
    ensures
        xor_all(a + b) == xor_all(a) ^ xor_all(b),
    decreases b.len(),
{
    if b.len() == 0 {
        assert(a + b =~= a);
        let x = xor_all(a);
        assert(x ^ 0u64 == x) by (bit_vector);
    } else {
        lemma_xor_concat(a, b.drop_last());
        assert((a + b).drop_last() =~= a + b.drop_last());
        let x = xor_all(a);
        let y = xor_all(b.drop_last());
        let z = b.last();
        assert((x ^ y) ^ z == x ^ (y ^ z)) by (bit_vector);
    }
}

/// However a buffer is cut into consecutive parts, one per worker, the XOR
/// of the parts' XORs equals the XOR of the whole buffer taken in order.
pub proof fn lemma_xor_partition(parts: Seq<Seq<u64>>)
    ensures
        xor_of_parts(parts) == xor_all(parts.flatten()),
    decreases parts.len(),
{
    if parts.len() > 0 {
        lemma_xor_partition(parts.drop_first());
        lemma_xor_concat(parts.first(), parts.drop_first().flatten());
    }
}

/// Cutting a buffer at any index into two workers' ranges leaves its XOR
/// unchanged.
pub proof fn lemma_xor_split(v: Seq<u64>, k: int)
    requires
        0 <= k <= v.len(),
    ensures
        xor_all(v) == xor_all(v.subrange(0, k)) ^ xor_all(v.subrange(k, v.len() as int)),
{
    lemma_xor_concat(v.subrange(0, k), v.subrange(k, v.len() as int));
    assert(v.subrange(0, k) + v.subrange(k, v.len() as int) =~= v);
}

} // verus!
