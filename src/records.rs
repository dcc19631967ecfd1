use vstd::prelude::*;

verus! {

/// One cache line of the sequential probe: a 4-byte payload padded to 64
/// bytes, so that consecutive elements never share a line.
#[derive(Clone, Copy)]
pub struct CacheLine {
    pub data: u32,
    pub padding: [u8; 60],
}

/// One node of the pointer chase: the index of the next node, if wired, and
/// a 4-byte payload, padded to 64 bytes.
#[derive(Clone, Copy)]
pub struct ChainNode {
    pub next: Option<usize>,
    pub data: u32,
    pub padding: [u8; 44],
}

} // verus!
