use crate::records::ChainNode;
use vstd::prelude::*;
use vstd::arithmetic::div_mod::lemma_add_mod_noop;

verus! {

/// The indices `0..n` in increasing order.
pub open spec fn index_range(n: nat) -> Seq<usize> {
    Seq::new(n, |i: int| i as usize)
}

/// `o` holds each of the indices `0..n` exactly once, in some order.
pub open spec fn is_index_permutation(o: Seq<usize>, n: nat) -> bool {
    o.to_multiset() == index_range(n).to_multiset()
}

/// Every wired reference points inside the sequence.
pub open spec fn chain_closed(nodes: Seq<ChainNode>) -> bool {
    forall|i: int|
        0 <= i < nodes.len() ==> match #[trigger] nodes[i].next {
            Some(j) => j < nodes.len(),
            None => true,
        }
}

/// Each node `o[i]` refers to `o[(i + 1) % n]`, wrapping around.
pub open spec fn wired_by(nodes: Seq<ChainNode>, o: Seq<usize>) -> bool {
    forall|i: int|
        0 <= i < o.len() ==> #[trigger] nodes[o[i] as int].next == Some(
            o[(i + 1) % (o.len() as int)],
        )
}

/// The first `n` nodes form one cycle: some permutation of `0..n` wires them.
pub open spec fn is_single_cycle(nodes: Seq<ChainNode>, n: nat) -> bool {
    exists|o: Seq<usize>| is_index_permutation(o, n) && wired_by(nodes, o)
}

/// One dereference: the node a node refers to, or the node itself where it
/// refers to none.
pub open spec fn step(nodes: Seq<ChainNode>, i: int) -> int {
    if 0 <= i < nodes.len() {
        match nodes[i].next {
            Some(j) => j as int,
            None => i,
        }
    } else {
        i
    }
}

/// The node reached after `k` dereferences from `start`.
pub open spec fn follow(nodes: Seq<ChainNode>, start: int, k: nat) -> int
    decreases k,
{
    if k == 0 {
        start
    } else {
        step(nodes, follow(nodes, start, (k - 1) as nat))
    }
}

/// What a permutation of `0..n` holds: `n` distinct indices below `n`,
/// every one of them.
pub proof fn lemma_index_permutation(o: Seq<usize>, n: nat)
    requires
        n <= usize::MAX,
        is_index_permutation(o, n),
    ensures
        o.len() == n,
        o.no_duplicates(),
        forall|i: int| 0 <= i < n ==> #[trigger] o[i] < n,
        forall|s: usize| s < n ==> #[trigger] o.contains(s),
{
    let r = index_range(n);
    o.to_multiset_ensures();
    r.to_multiset_ensures();
    assert(r.no_duplicates());
    r.lemma_multiset_has_no_duplicates();
    o.lemma_multiset_has_no_duplicates_conv();
    assert forall|i: int| 0 <= i < n implies #[trigger] o[i] < n by {
        assert(o.contains(o[i]));
        assert(o.to_multiset().count(o[i]) > 0);
        assert(r.to_multiset().count(o[i]) > 0);
        assert(r.contains(o[i]));
        let k = choose|k: int| 0 <= k < r.len() && r[k] == o[i];
        assert(r[k] == k as usize);
    }
    assert forall|s: usize| s < n implies #[trigger] o.contains(s) by {
        assert(r[s as int] == s);
        assert(r.contains(s));
        assert(r.to_multiset().count(s) > 0);
        assert(o.to_multiset().count(s) > 0);
    }
}

/// Along a wired permutation, `k` dereferences from `o[j]` reach
/// `o[(j + k) % n]`.
pub proof fn lemma_follow_wired(nodes: Seq<ChainNode>, o: Seq<usize>, j: int, k: nat)
    requires
        o.len() >= 1,
        0 <= j < o.len(),
        forall|i: int| 0 <= i < o.len() ==> #[trigger] o[i] < nodes.len(),
        wired_by(nodes, o),
    ensures
        follow(nodes, o[j] as int, k) == o[(j + k) % (o.len() as int)] as int,
    decreases k,
{
    let n = o.len() as int;
    if k == 0 {
        vstd::arithmetic::div_mod::lemma_small_mod(j as nat, n as nat);
    } else {
        lemma_follow_wired(nodes, o, j, (k - 1) as nat);
        let m = (j + k - 1) % n;
        assert(0 <= m < n) by {
            vstd::arithmetic::div_mod::lemma_mod_bound(j + k - 1, n);
        }
        assert(o[m] < nodes.len());
        assert(nodes[o[m] as int].next == Some(o[(m + 1) % n]));
        lemma_add_mod_noop(j + k - 1, 1, n);
        if n == 1 {
            assert((m + 1) % n == 0);
            assert((j + k) % n == 0);
        } else {
            vstd::arithmetic::div_mod::lemma_small_mod(1, n as nat);
            vstd::arithmetic::div_mod::lemma_mod_twice(m + 1, n);
        }
    }
}

/// From any of the first `n` nodes of a single cycle, `n` dereferences
/// visit `n` distinct nodes and the next one is the start again.
pub proof fn lemma_single_cycle(nodes: Seq<ChainNode>, n: nat, start: usize)
    requires
        n >= 1,
        n <= nodes.len(),
        n <= usize::MAX,
        start < n,
        is_single_cycle(nodes, n),
    ensures
        forall|a: nat, b: nat|
            a < n && b < n && a != b ==> #[trigger] follow(nodes, start as int, a) != #[trigger] follow(
                nodes,
                start as int,
                b,
            ),
        forall|a: nat| a < n ==> 0 <= #[trigger] follow(nodes, start as int, a) < n,
        follow(nodes, start as int, n) == start as int,
{
    let o = choose|o: Seq<usize>| is_index_permutation(o, n) && wired_by(nodes, o);
    lemma_index_permutation(o, n);
    assert(o.contains(start));
    let j = choose|j: int| 0 <= j < o.len() && o[j] == start;
    assert forall|a: nat| a < n implies 0 <= #[trigger] follow(nodes, start as int, a) < n by {
        lemma_follow_wired(nodes, o, j, a);
        vstd::arithmetic::div_mod::lemma_mod_bound(j + a, n as int);
    }
    assert forall|a: nat, b: nat|
        a < n && b < n && a != b implies #[trigger] follow(nodes, start as int, a) != #[trigger] follow(
        nodes,
        start as int,
        b,
    ) by {
        lemma_follow_wired(nodes, o, j, a);
        lemma_follow_wired(nodes, o, j, b);
        let x = (j + a) % (n as int);
        let y = (j + b) % (n as int);
        vstd::arithmetic::div_mod::lemma_mod_bound(j + a, n as int);
        vstd::arithmetic::div_mod::lemma_mod_bound(j + b, n as int);
        if x == y {
            vstd::arithmetic::div_mod::lemma_fundamental_div_mod(j + a, n as int);
            vstd::arithmetic::div_mod::lemma_fundamental_div_mod(j + b, n as int);
            let qa = (j + a) / (n as int);
            let qb = (j + b) / (n as int);
            assert(n * (qa - qb) == a - b) by (nonlinear_arith)
                requires
                    j + a == n * qa + x,
                    j + b == n * qb + y,
                    x == y,
            ;
            assert(false) by (nonlinear_arith)
                requires
                    n * (qa - qb) == a - b,
                    a < n,
                    b < n,
                    a != b,
                    n >= 1,
            ;
        }
        assert(o[x] != o[y]);
    }
    lemma_follow_wired(nodes, o, j, n);
    vstd::arithmetic::div_mod::lemma_mod_add_multiples_vanish(j, n as int);
    vstd::arithmetic::div_mod::lemma_small_mod(j as nat, n);
}

/// Every byte of a node's padding is zero.
pub open spec fn is_zero_node_padding(p: [u8; 44]) -> bool {
    forall|k: int| 0 <= k < 44 ==> #[trigger] p@[k] == 0
}

/// One unwired node per value, node `i` holding `values[i]`, with zero
/// padding.
pub fn nodes_from_payloads(values: &Vec<u32>) -> (r: Vec<ChainNode>)
    ensures
        r@.len() == values@.len(),
        forall|i: int|
            0 <= i < values@.len() ==> #[trigger] r@[i].data == values@[i] && r@[i].next == None::<
                usize,
            > && is_zero_node_padding(r@[i].padding),
        chain_closed(r@),
{
    let n = values.len();
    let mut v: Vec<ChainNode> = Vec::new();
    let mut i: usize = 0;
    while i < n
        invariant
            i <= n,
            n == values@.len(),
            v@.len() == i,
            forall|k: int|
                0 <= k < i ==> #[trigger] v@[k].data == values@[k] && v@[k].next == None::<usize>
                    && is_zero_node_padding(v@[k].padding),
        decreases n - i,
    {
        let padding = [0u8; 44];
        proof {
            broadcast use vstd::array::group_array_axioms;
        }
        v.push(ChainNode { next: None, data: values[i], padding });
        i += 1;
    }
    proof {
        assert forall|m: int| 0 <= m < v@.len() implies #[trigger] v@[m].next == None::<usize> by {
            assert(v@[m].data == values@[m]);
        }
    }
    v
}

/// `count` unwired nodes with zero padding and payloads drawn from `rng`.
pub fn init_ptr_chain(count: usize, rng: &mut rand::rngs::StdRng) -> (r: Vec<ChainNode>)
    ensures
        r@.len() == count,
        forall|i: int|
            0 <= i < count ==> #[trigger] r@[i].next == None::<usize> && is_zero_node_padding(
                r@[i].padding,
            ),
        chain_closed(r@),
{
    let values = crate::random::random_payloads(count, rng);
    let r = nodes_from_payloads(&values);
    proof {
        assert forall|i: int| 0 <= i < count implies #[trigger] r@[i].next == None::<usize>
            && is_zero_node_padding(r@[i].padding) by {
            assert(r@[i].data == values@[i]);
        }
    }
    r
}

/// Writes `values[i]` into the payload of node `i`, for each value; the
/// references, the padding and the nodes past the values stay as they were.
pub fn set_chain_payloads(chain: &mut Vec<ChainNode>, values: &Vec<u32>)
    requires
        values@.len() <= old(chain)@.len(),
    ensures
        final(chain)@.len() == old(chain)@.len(),
        forall|m: int|
            0 <= m < values@.len() ==> #[trigger] final(chain)@[m].data == values@[m]
                && final(chain)@[m].next == old(chain)@[m].next && final(chain)@[m].padding
                == old(chain)@[m].padding,
        forall|m: int|
            values@.len() <= m < old(chain)@.len() ==> #[trigger] final(chain)@[m] == old(chain)@[m],
{
    let n = values.len();
    let mut i: usize = 0;
    while i < n
        invariant
            i <= n,
            n == values@.len(),
            n <= chain@.len(),
            chain@.len() == old(chain)@.len(),
            forall|m: int|
                0 <= m < chain@.len() ==> #[trigger] chain@[m].next == old(chain)@[m].next
                    && chain@[m].padding == old(chain)@[m].padding,
            forall|m: int| 0 <= m < i ==> #[trigger] chain@[m].data == values@[m],
            forall|m: int| i <= m < chain@.len() ==> #[trigger] chain@[m] == old(chain)@[m],
        decreases n - i,
    {
        let mut node = chain[i];
        node.data = values[i];
        chain.set(i, node);
        i += 1;
    }
}

/// The indices `0..n` in increasing order.
pub fn index_vec(n: usize) -> (r: Vec<usize>)
    ensures
        r@ == index_range(n as nat),
{
    let mut v: Vec<usize> = Vec::new();
    let mut i: usize = 0;
    while i < n
        invariant
            i <= n,
            v@ == index_range(i as nat),
        decreases n - i,
    {
        v.push(i);
        i += 1;
        assert(v@ =~= index_range(i as nat));
    }
    v
}

/// Wires node `order[i]` to node `order[(i + 1) % n]` for every `i`, so that
/// the first `n` nodes form one cycle in the order of `order`. Payloads and
/// the nodes from `n` on are left as they were.
pub fn build_ptr_chain(v: &mut Vec<ChainNode>, order: &Vec<usize>)
    requires
        order@.len() <= old(v)@.len(),
        is_index_permutation(order@, order@.len()),
        chain_closed(old(v)@),
    ensures
        final(v)@.len() == old(v)@.len(),
        wired_by(final(v)@, order@),
        is_single_cycle(final(v)@, order@.len()),
        chain_closed(final(v)@),
        forall|m: int|
            0 <= m < old(v)@.len() ==> #[trigger] final(v)@[m].data == old(v)@[m].data
                && final(v)@[m].padding == old(v)@[m].padding,
        forall|m: int| order@.len() <= m < old(v)@.len() ==> #[trigger] final(v)@[m] == old(v)@[m],
{
    let n = order.len();
    proof {
        lemma_index_permutation(order@, n as nat);
    }
    let mut i: usize = 0;
    while i < n
        invariant
            i <= n,
            n == order@.len(),
            n <= v@.len(),
            v@.len() == old(v)@.len(),
            order@.no_duplicates(),
            forall|k: int| 0 <= k < n ==> #[trigger] order@[k] < n,
            forall|k: int|
                0 <= k < i ==> #[trigger] v@[order@[k] as int].next == Some(
                    order@[(k + 1) % (n as int)],
                ),
            forall|m: int|
                0 <= m < v@.len() ==> #[trigger] v@[m].data == old(v)@[m].data
                    && v@[m].padding == old(v)@[m].padding,
            forall|m: int| n <= m < v@.len() ==> #[trigger] v@[m] == old(v)@[m],
            chain_closed(v@),
        decreases n - i,
    {
        let a = order[i];
        let b = order[(i + 1) % n];
        let mut node = v[a];
        node.next = Some(b);
        v.set(a, node);
        proof {
            assert forall|k: int| 0 <= k < i implies order@[k] != a by {
                assert(order@[k] != order@[i as int]);
            }
        }
        i += 1;
    }
    proof {
        assert(is_index_permutation(order@, n as nat) && wired_by(v@, order@));
    }
}

/// Gives the first `size` nodes fresh payloads drawn from `rng` and wires
/// them into one cycle in an order shuffled by `rng`. Returns the drawn
/// payloads, in node order. The nodes from `size` on are left as they were.
pub fn rewire_chain(chain: &mut Vec<ChainNode>, size: usize, rng: &mut rand::rngs::StdRng) -> (r:
    Vec<u32>)
    requires
        1 <= size <= old(chain)@.len(),
        chain_closed(old(chain)@),
    ensures
        final(chain)@.len() == old(chain)@.len(),
        r@.len() == size,
        forall|m: int| 0 <= m < size ==> #[trigger] final(chain)@[m].data == r@[m],
        is_single_cycle(final(chain)@, size as nat),
        chain_closed(final(chain)@),
        forall|m: int| size <= m < old(chain)@.len() ==> #[trigger] final(chain)@[m] == old(chain)@[m],
{
    let values = crate::random::random_payloads(size, rng);
    set_chain_payloads(chain, &values);
    proof {
        assert forall|m: int| 0 <= m < chain@.len() implies match #[trigger] chain@[m].next {
            Some(j) => j < chain@.len(),
            None => true,
        } by {
            if m < size {
                assert(chain@[m].data == values@[m]);
            }
            assert(chain@[m].next == old(chain)@[m].next);
        }
    }
    let mut order = index_vec(size);
    let ghost before = order@;
    crate::random::shuffle_indices(&mut order, rng);
    proof {
        before.to_multiset_ensures();
        order@.to_multiset_ensures();
        assert(order@.len() == size);
    }
    build_ptr_chain(chain, &order);
    values
}

/// The dereferences the pointer chase makes per round, back to back.
pub const CHASE_UNROLL: usize = 200;

/// The timed part of the pointer chase: `rounds` blocks of `CHASE_UNROLL`
/// dependent dereferences from `start`, each load giving the index of the
/// next. Returns the node reached.
pub fn chase(chain: &Vec<ChainNode>, start: usize, rounds: usize) -> (r: usize)
    requires
        chain_closed(chain@),
        start < chain@.len(),
    ensures
        r == follow(chain@, start as int, (rounds * CHASE_UNROLL) as nat),
        r < chain@.len(),
{
    let mut cur: usize = start;
    let mut k: usize = 0;
    while k < rounds
        invariant
            k <= rounds,
            start < chain@.len(),
            chain_closed(chain@),
            cur < chain@.len(),
            cur == follow(chain@, start as int, (k * CHASE_UNROLL) as nat),
        decreases rounds - k,
    {
        let mut m: usize = 0;
        while m < CHASE_UNROLL
            invariant
                m <= CHASE_UNROLL,
                k < rounds,
                chain_closed(chain@),
                cur < chain@.len(),
                cur == follow(chain@, start as int, (k * CHASE_UNROLL + m) as nat),
            decreases CHASE_UNROLL - m,
        {
            match chain[cur].next {
                Some(j) => {
                    cur = j;
                },
                None => {},
            }
            m += 1;
        }
        k += 1;
    }
    cur
}

} // verus!
