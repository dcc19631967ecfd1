use crate::records::CacheLine;
use vstd::prelude::*;

verus! {

/// The payloads of a sequence of cache lines.
pub open spec fn payloads(mem: Seq<CacheLine>) -> Seq<u32> {
    mem.map_values(|c: CacheLine| c.data)
}

/// The accumulator after folding `acc ^= p[i] | j` over `i` in `0..n`.
pub open spec fn pass_acc(p: Seq<u32>, j: u32, acc: u32, n: nat) -> u32
    decreases n,
{
    if n == 0 {
        acc
    } else {
        pass_acc(p, j, acc, (n - 1) as nat) ^ (p[n - 1] | j)
    }
}

/// The accumulator of `count` passes over the first `size` payloads, each
/// pass `j` folding `acc ^= p[i] | j` (with `j` truncated to 32 bits), from
/// an accumulator of all ones.
pub open spec fn scan_acc(p: Seq<u32>, size: nat, count: nat) -> u32
    decreases count,
{
    if count == 0 {
        u32::MAX
    } else {
        pass_acc(p, ((count - 1) as usize) as u32, scan_acc(p, size, (count - 1) as nat), size)
    }
}

/// Every byte of a line's padding is zero.
pub open spec fn is_zero_padding(p: [u8; 60]) -> bool {
    forall|k: int| 0 <= k < 60 ==> #[trigger] p@[k] == 0
}

/// `count` cache lines whose payloads are their indices, truncated to 32
/// bits, with zero padding.
pub fn init(count: usize) -> (r: Vec<CacheLine>)
    ensures
        r@.len() == count,
        forall|i: int|
            0 <= i < count ==> #[trigger] r@[i].data == i as usize as u32 && is_zero_padding(
                r@[i].padding,
            ),
{
    let mut v: Vec<CacheLine> = Vec::new();
    let mut i: usize = 0;
    while i < count
        invariant
            i <= count,
            v@.len() == i,
            forall|k: int|
                0 <= k < i ==> #[trigger] v@[k].data == k as usize as u32 && is_zero_padding(
                    v@[k].padding,
                ),
        decreases count - i,
    {
        let padding = [0u8; 60];
        proof {
            broadcast use vstd::array::group_array_axioms;
        }
        v.push(CacheLine { data: i as u32, padding });
        i += 1;
    }
    v
}

/// Writes `values[i]` into the payload of line `i`, for every line; the
/// length and the padding stay as they were.
pub fn set_payloads(mem: &mut Vec<CacheLine>, values: &Vec<u32>)
    requires
        values@.len() == old(mem)@.len(),
    ensures
        final(mem)@.len() == old(mem)@.len(),
        payloads(final(mem)@) == values@,
        forall|i: int|
            0 <= i < old(mem)@.len() ==> #[trigger] final(mem)@[i].data == values@[i]
                && final(mem)@[i].padding == old(mem)@[i].padding,
{
    let n = mem.len();
    let mut i: usize = 0;
    while i < n
        invariant
            i <= n,
            n == old(mem)@.len(),
            n == values@.len(),
            mem@.len() == n,
            forall|k: int| 0 <= k < n ==> #[trigger] mem@[k].padding == old(mem)@[k].padding,
            forall|k: int| 0 <= k < i ==> #[trigger] mem@[k].data == values@[k],
        decreases n - i,
    {
        let mut line = mem[i];
        line.data = values[i];
        mem.set(i, line);
        i += 1;
    }
    proof {
        assert(payloads(mem@) =~= values@);
    }
}

/// Gives every line a fresh payload drawn from `rng`, touching every line,
/// and returns the drawn payloads, in line order. The length and the padding
/// stay as they were.
pub fn clear_cache(mem: &mut Vec<CacheLine>, rng: &mut rand::rngs::StdRng) -> (r: Vec<u32>)
    ensures
        final(mem)@.len() == old(mem)@.len(),
        r@.len() == old(mem)@.len(),
        payloads(final(mem)@) == r@,
        forall|i: int|
            0 <= i < old(mem)@.len() ==> #[trigger] final(mem)@[i].data == r@[i]
                && final(mem)@[i].padding == old(mem)@[i].padding,
{
    let values = crate::random::random_payloads(mem.len(), rng);
    set_payloads(mem, &values);
    values
}

/// The timed part of the sequential probe: `count` passes over the first
/// `size` lines, each pass `j` folding `acc ^= data | j` into an accumulator
/// that starts at all ones. The accumulator is the observable use of every
/// load.
pub fn scan(mem: &Vec<CacheLine>, size: usize, count: usize) -> (r: u32)
    requires
        size <= mem@.len(),
    ensures
        r == scan_acc(payloads(mem@), size as nat, count as nat),
{
    let ghost p = payloads(mem@);
    let mut acc: u32 = u32::MAX;
    let mut j: usize = 0;
    while j < count
        invariant
            j <= count,
            size <= mem@.len(),
            p == payloads(mem@),
            acc == scan_acc(p, size as nat, j as nat),
        decreases count - j,
    {
        let ghost start = acc;
        let mut i: usize = 0;
        while i < size
            invariant
                i <= size,
                size <= mem@.len(),
                p == payloads(mem@),
                acc == pass_acc(p, j as u32, start, i as nat),
            decreases size - i,
        {
            acc = acc ^ (mem[i].data | j as u32);
            i += 1;
        }
        j += 1;
    }
    acc
}

} // verus!
