use memlat::bandwidth::{
    fill_parallel, random_words, read_passes, write_passes, xor_combine, xor_parallel,
    xor_sequential,
};
use memlat::chase::{
    build_ptr_chain, chase, index_vec, init_ptr_chain, nodes_from_payloads, rewire_chain,
    set_chain_payloads, CHASE_UNROLL,
};
use memlat::random::random_payloads;
use memlat::records::{CacheLine, ChainNode};
use memlat::sequential::{clear_cache, init, scan, set_payloads};
use memlat::size_label::{decimal_text, pretty_print_size, GIB, KIB, MIB};
use memlat::sweep::sweep_sizes;
use rand::rngs::StdRng;
use rand::SeedableRng;
use std::collections::HashSet;
use std::time::Instant;

fn seeded(seed: u64) -> StdRng {
    StdRng::seed_from_u64(seed)
}

#[test]
fn label_at_the_byte_threshold() {
    assert_eq!(pretty_print_size(1024), "1024B");
}

#[test]
fn label_just_above_the_byte_threshold() {
    assert_eq!(pretty_print_size(1025), "1KB");
}

#[test]
fn label_at_the_kilobyte_threshold() {
    // A tier is kept while the count is at most its threshold, so one
    // mebibyte still prints in kilobytes; one byte more prints in megabytes.
    assert_eq!(pretty_print_size(1048576), "1024KB");
    assert_eq!(pretty_print_size(1048577), "1MB");
    assert_eq!(pretty_print_size(2097152), "2MB");
}

#[test]
fn label_edge_values() {
    assert_eq!(pretty_print_size(0), "0B");
    assert_eq!(pretty_print_size(1), "1B");
    assert_eq!(pretty_print_size(2048), "2KB");
    assert_eq!(pretty_print_size(3 * MIB - 1), "2MB");
    assert_eq!(pretty_print_size(GIB), "1024MB");
    assert_eq!(pretty_print_size(GIB + 1), "1GB");
    assert_eq!(pretty_print_size(64 * 64), "4KB");
}

#[test]
fn label_value_times_unit_lies_in_its_bucket() {
    for &(n, value, unit, low, high) in &[
        (512usize, 512usize, 1usize, 0usize, KIB),
        (4096, 4, KIB, KIB, MIB),
        (5 * MIB, 5, MIB, MIB, GIB),
    ] {
        let label = pretty_print_size(n);
        let digits: String = label.chars().take_while(|c| c.is_ascii_digit()).collect();
        let parsed: usize = digits.parse().unwrap();
        assert_eq!(parsed, value);
        assert!(parsed * unit <= high);
        assert!(n == 0 || parsed * unit > low || low == 0);
    }
}

#[test]
fn decimal_text_of_several_numbers() {
    assert_eq!(decimal_text(0), "0");
    assert_eq!(decimal_text(9), "9");
    assert_eq!(decimal_text(10), "10");
    assert_eq!(decimal_text(1234567), "1234567");
}

#[test]
fn records_fill_one_cache_line() {
    assert_eq!(std::mem::size_of::<CacheLine>(), 64);
    assert_eq!(std::mem::size_of::<ChainNode>(), 64);
    assert_eq!(std::mem::size_of::<[CacheLine; 4]>(), 256);
    assert_eq!(std::mem::size_of::<[ChainNode; 4]>(), 256);
}

#[test]
fn init_numbers_the_lines() {
    let mem = init(5);
    assert_eq!(mem.len(), 5);
    for (i, line) in mem.iter().enumerate() {
        assert_eq!(line.data, i as u32);
        assert_eq!(line.padding, [0u8; 60]);
    }
}

#[test]
fn clear_cache_keeps_length_and_padding() {
    let mut mem = init(100);
    let mut rng = seeded(1);
    let drawn = clear_cache(&mut mem, &mut rng);
    assert_eq!(mem.len(), 100);
    assert_eq!(drawn.len(), 100);
    assert!(mem.iter().zip(drawn.iter()).all(|(l, &d)| l.data == d));
    assert!(mem.iter().all(|l| l.padding == [0u8; 60]));
    let distinct: HashSet<u32> = mem.iter().map(|l| l.data).collect();
    assert!(distinct.len() > 50);
}

#[test]
fn scan_with_indices_as_payloads() {
    let mem = init(64);
    assert_eq!(scan(&mem, 64, 1), 0xFFFF_FFFF);
    assert_eq!(scan(&mem, 3, 1), 0xFFFF_FFFC);
    assert_eq!(scan(&mem, 3, 2), 0xFFFF_FFFC ^ (0 | 1) ^ (1 | 1) ^ (2 | 1));
    assert_eq!(scan(&mem, 0, 5), 0xFFFF_FFFF);
    assert_eq!(scan(&mem, 10, 0), 0xFFFF_FFFF);
}

#[test]
fn scan_of_one_pass_over_seeded_payloads() {
    let mut mem = init(64);
    let mut rng = seeded(42);
    clear_cache(&mut mem, &mut rng);
    let mut expected = 0xFFFF_FFFFu32;
    for line in &mem {
        expected ^= line.data | 0;
    }
    assert_eq!(scan(&mem, 64, 1), expected);
    let mut again = init(64);
    clear_cache(&mut again, &mut seeded(42));
    assert_eq!(scan(&again, 64, 1), expected);
}

#[test]
fn scan_twice_agrees_and_latency_is_positive() {
    let mut mem = init(4096);
    clear_cache(&mut mem, &mut seeded(7));
    let mut latencies = Vec::new();
    let mut results = Vec::new();
    for _ in 0..2 {
        let start = Instant::now();
        results.push(scan(&mem, 4096, 64));
        let elapsed = start.elapsed();
        let ns = elapsed.as_secs_f64() * 1e9 / (64.0 * 4096.0);
        latencies.push(ns);
    }
    assert_eq!(results[0], results[1]);
    assert!(latencies.iter().all(|l| l.is_finite() && *l > 0.0));
}

fn walk(chain: &[ChainNode], start: usize, steps: usize) -> Vec<usize> {
    let mut seen = vec![start];
    let mut cur = start;
    for _ in 0..steps {
        cur = chain[cur].next.unwrap();
        seen.push(cur);
    }
    seen
}

#[test]
fn rewired_chain_is_one_cycle_from_every_start() {
    let mut rng = seeded(3);
    let mut chain = init_ptr_chain(100, &mut rng);
    assert!(chain.iter().all(|n| n.next.is_none()));
    for &size in &[1usize, 2, 37, 64] {
        let drawn = rewire_chain(&mut chain, size, &mut rng);
        assert_eq!(drawn.len(), size);
        assert!((0..size).all(|i| chain[i].data == drawn[i]));
        for start in 0..size {
            let seen = walk(&chain, start, size);
            let distinct: HashSet<usize> = seen[..size].iter().copied().collect();
            assert_eq!(distinct.len(), size);
            assert!(seen[..size].iter().all(|&i| i < size));
            assert_eq!(seen[size], start);
        }
        assert!(chain[64..].iter().all(|n| n.next.is_none()));
    }
}

#[test]
fn build_follows_the_given_order() {
    let mut rng = seeded(5);
    let mut chain = init_ptr_chain(4, &mut rng);
    let payloads: Vec<u32> = chain.iter().map(|n| n.data).collect();
    build_ptr_chain(&mut chain, &vec![2, 0, 1]);
    assert_eq!(chain[2].next, Some(0));
    assert_eq!(chain[0].next, Some(1));
    assert_eq!(chain[1].next, Some(2));
    assert_eq!(chain[3].next, None);
    let after: Vec<u32> = chain.iter().map(|n| n.data).collect();
    assert_eq!(payloads, after);
    assert_eq!(CHASE_UNROLL, 200);
    // 200 steps around a cycle of three from node 0: 200 % 3 == 2.
    assert_eq!(chase(&chain, 0, 1), 2);
    assert_eq!(chase(&chain, 0, 0), 0);
    // 600 steps: a whole number of turns.
    assert_eq!(chase(&chain, 1, 3), 1);
    assert_eq!(chase(&chain, 3, 2), 3);
}

#[test]
fn index_vec_counts_up() {
    assert_eq!(index_vec(4), vec![0, 1, 2, 3]);
    assert!(index_vec(0).is_empty());
}

#[test]
fn xor_reduction_of_one_to_four() {
    let v = vec![1u64, 2, 3, 4];
    assert_eq!(xor_sequential(&v), 4);
    assert_eq!(xor_parallel(&v), 4);
    let a = xor_combine(xor_sequential(&vec![1]), xor_sequential(&vec![2, 3, 4]));
    let b = xor_combine(xor_sequential(&vec![1, 2]), xor_sequential(&vec![3, 4]));
    assert_eq!(a, 4);
    assert_eq!(b, 4);
}

#[test]
fn xor_reduction_of_a_large_buffer() {
    let v = random_words(100_000, &mut seeded(9));
    assert_eq!(v.len(), 100_000);
    let expected = v.iter().fold(0u64, |a, b| a ^ b);
    assert_eq!(xor_sequential(&v), expected);
    assert_eq!(xor_parallel(&v), expected);
    assert_eq!(xor_parallel(&Vec::new()), 0);
}

#[test]
fn read_passes_fold_the_reduction() {
    let v = vec![1u64, 2, 3, 4];
    assert_eq!(read_passes(&v, 0), 0);
    assert_eq!(read_passes(&v, 1), 4);
    assert_eq!(read_passes(&v, 2), 0);
    assert_eq!(read_passes(&v, 3), 4);
}

#[test]
fn fill_writes_every_word() {
    let mut v = vec![7u64; 10_000];
    fill_parallel(&mut v, 0xDEAD_BEEF);
    assert!(v.iter().all(|&x| x == 0xDEAD_BEEF));
    assert_eq!(v.len(), 10_000);
}

#[test]
fn write_passes_fold_each_value() {
    let mut v = vec![0u64; 8];
    assert_eq!(write_passes(&mut v, &vec![5, 9, 3]), 5 ^ 9 ^ 3);
    assert_eq!(v, vec![3u64; 8]);
    let mut w = vec![1u64, 2];
    assert_eq!(write_passes(&mut w, &Vec::new()), 0);
    assert_eq!(w, vec![1, 2]);
}

#[test]
fn sweep_doubles_within_the_limit() {
    assert_eq!(sweep_sizes(64, 1000), vec![64, 128, 256, 512]);
    assert_eq!(sweep_sizes(64, 512), vec![64, 128, 256, 512]);
    assert!(sweep_sizes(64, 63).is_empty());
    let big = usize::MAX / 2 + 1;
    assert_eq!(sweep_sizes(big, usize::MAX), vec![big]);
}

#[test]
fn set_payloads_writes_each_value_in_place() {
    let mut mem = init(4);
    set_payloads(&mut mem, &vec![10, 20, 30, 40]);
    let data: Vec<u32> = mem.iter().map(|l| l.data).collect();
    assert_eq!(data, vec![10, 20, 30, 40]);
    assert!(mem.iter().all(|l| l.padding == [0u8; 60]));
}

#[test]
fn random_payloads_are_seeded() {
    let a = random_payloads(16, &mut seeded(11));
    let b = random_payloads(16, &mut seeded(11));
    assert_eq!(a.len(), 16);
    assert_eq!(a, b);
    assert!(a.iter().any(|&x| x != a[0]));
}

#[test]
fn nodes_hold_their_payloads_unwired() {
    let nodes = nodes_from_payloads(&vec![7, 8, 9]);
    assert_eq!(nodes.len(), 3);
    for (i, n) in nodes.iter().enumerate() {
        assert_eq!(n.data, 7 + i as u32);
        assert_eq!(n.next, None);
        assert_eq!(n.padding, [0u8; 44]);
    }
    let chain = init_ptr_chain(5, &mut seeded(12));
    let expected = random_payloads(5, &mut seeded(12));
    let data: Vec<u32> = chain.iter().map(|n| n.data).collect();
    assert_eq!(data, expected);
    assert!(chain.iter().all(|n| n.padding == [0u8; 44]));
}

#[test]
fn set_chain_payloads_keeps_wiring_and_tail() {
    let mut chain = nodes_from_payloads(&vec![1, 2, 3, 4]);
    build_ptr_chain(&mut chain, &vec![1, 0]);
    set_chain_payloads(&mut chain, &vec![50, 60]);
    assert_eq!(chain[0].data, 50);
    assert_eq!(chain[1].data, 60);
    assert_eq!(chain[0].next, Some(1));
    assert_eq!(chain[1].next, Some(0));
    assert_eq!(chain[2].data, 3);
    assert_eq!(chain[3].data, 4);
    assert_eq!(chain[3].next, None);
}

#[test]
fn build_with_empty_order_changes_nothing() {
    let mut chain = nodes_from_payloads(&vec![1, 2, 3]);
    build_ptr_chain(&mut chain, &Vec::new());
    assert!(chain.iter().all(|n| n.next.is_none()));
    let data: Vec<u32> = chain.iter().map(|n| n.data).collect();
    assert_eq!(data, vec![1, 2, 3]);
}
