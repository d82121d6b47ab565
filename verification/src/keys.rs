//! Keys of chains and their ordering by key range.
use vstd::prelude::*;
use vstd::arithmetic::power2::pow2;
use std::cmp::Ordering;

verus! {

/// A child's entry in its parent's list: chain id and key range.
#[derive(Clone, Copy, Debug, PartialEq, Eq, Structural)]
pub struct ChainKey {
    pub cid: u64,
    pub key: u64,
    pub keybits: u8,
}

/// How one key range lies relative to another.
#[derive(Clone, Copy, Debug, PartialEq, Eq, Structural)]
pub enum KeyOrder {
    /// Fully to the left.
    Less,
    /// Overlapping.
    Equal,
    /// Fully to the right.
    Greater,
}

/// The first key of a range.
pub open spec fn range_beg(key: u64) -> int {
    key as int
}

/// The last key of the range of `2^keybits` keys starting at `key`.
pub open spec fn range_end(key: u64, keybits: u8) -> int {
    key + pow2(keybits as nat) - 1
}

/// The range of `2^keybits` keys starting at `key` fits in 64 bits.
pub open spec fn range_ok(key: u64, keybits: u8) -> bool {
    keybits < 64 && range_end(key, keybits) <= u64::MAX
}

pub open spec fn chain_key_ok(x: ChainKey) -> bool {
    range_ok(x.key, x.keybits)
}

/// How the range `[b1, e1]` lies relative to `[b2, e2]`; overlapping
/// ranges count as a match.
pub open spec fn range_order(b1: int, e1: int, b2: int, e2: int) -> KeyOrder {
    if e1 < b2 {
        KeyOrder::Less
    } else if b1 > e2 {
        KeyOrder::Greater
    } else {
        KeyOrder::Equal
    }
}

/// How the key range of `x1` lies relative to that of `x2`.
pub open spec fn key_order(x1: ChainKey, x2: ChainKey) -> KeyOrder {
    range_order(
        range_beg(x1.key),
        range_end(x1.key, x1.keybits),
        range_beg(x2.key),
        range_end(x2.key, x2.keybits),
    )
}

/// The last key of a range.
pub fn key_range_end(key: u64, keybits: u8) -> (r: u64)
    requires
        range_ok(key, keybits),
    ensures
        r == range_end(key, keybits),
{
    proof {
        vstd::bits::lemma_u64_pow2_no_overflow(keybits as nat);
        vstd::bits::lemma_u64_shl_is_mul(1u64, keybits as u64);
    }
    key + ((1u64 << (keybits as u64)) - 1)
}

/// One past the last key of a range, wrapping to 0 at the end of the key
/// space.
pub open spec fn range_next(key: u64, keybits: u8) -> u64 {
    if range_end(key, keybits) == u64::MAX {
        0
    } else {
        (range_end(key, keybits) + 1) as u64
    }
}

pub fn key_range_next(key: u64, keybits: u8) -> (r: u64)
    requires
        range_ok(key, keybits),
    ensures
        r == range_next(key, keybits),
{
    let e = key_range_end(key, keybits);
    if e == u64::MAX {
        0
    } else {
        e + 1
    }
}

/// `range_order` on 64-bit bounds.
pub open spec fn range_order_u64(b1: u64, e1: u64, b2: u64, e2: u64) -> KeyOrder {
    range_order(b1 as int, e1 as int, b2 as int, e2 as int)
}

pub fn range_order_exec(b1: u64, e1: u64, b2: u64, e2: u64) -> (r: KeyOrder)
    ensures
        r == range_order_u64(b1, e1, b2, e2),
{
    if e1 < b2 {
        KeyOrder::Less
    } else if b1 > e2 {
        KeyOrder::Greater
    } else {
        KeyOrder::Equal
    }
}

pub fn key_order_exec(x1: &ChainKey, x2: &ChainKey) -> (r: KeyOrder)
    requires
        chain_key_ok(*x1),
        chain_key_ok(*x2),
    ensures
        r == key_order(*x1, *x2),
{
    let e1 = key_range_end(x1.key, x1.keybits);
    let e2 = key_range_end(x2.key, x2.keybits);
    range_order_exec(x1.key, e1, x2.key, e2)
}

/// The standard ordering that a key order stands for.
pub open spec fn order_to_ordering(o: KeyOrder) -> Ordering {
    match o {
        KeyOrder::Less => Ordering::Less,
        KeyOrder::Equal => Ordering::Equal,
        KeyOrder::Greater => Ordering::Greater,
    }
}

pub fn order_to_ordering_exec(o: KeyOrder) -> (r: Ordering)
    ensures
        r == order_to_ordering(o),
{
    match o {
        KeyOrder::Less => Ordering::Less,
        KeyOrder::Equal => Ordering::Equal,
        KeyOrder::Greater => Ordering::Greater,
    }
}

/// Compares the ranges `[x1_beg, x1_end]` and `[x2_beg, x2_end]`:
/// `Less` when the first lies fully to the left, `Greater` fully to the
/// right, `Equal` when they overlap.
pub fn cmp_chain_key_impl(x1_beg: u64, x1_end: u64, x2_beg: u64, x2_end: u64) -> (r: Ordering)
    ensures
        r == order_to_ordering(range_order_u64(x1_beg, x1_end, x2_beg, x2_end)),
{
    order_to_ordering_exec(range_order_exec(x1_beg, x1_end, x2_beg, x2_end))
}

/// Compares the key ranges of two chain keys.
pub fn cmp_chain_key(x1: &ChainKey, x2: &ChainKey) -> (r: Ordering)
    requires
        chain_key_ok(*x1),
        chain_key_ok(*x2),
    ensures
        r == order_to_ordering(key_order(*x1, *x2)),
{
    order_to_ordering_exec(key_order_exec(x1, x2))
}

impl ChainKey {
    pub fn new(cid: u64, key: u64, keybits: u8) -> (r: Self)
        ensures
            r.cid == cid && r.key == key && r.keybits == keybits,
    {
        Self { cid, key, keybits }
    }
}

/// Key order is antisymmetric: one range lies left of another exactly when
/// the other lies right of it, and overlap is symmetric.
pub proof fn lemma_key_order_antisymmetric(x1: ChainKey, x2: ChainKey)
    ensures
        key_order(x1, x2) == KeyOrder::Less <==> key_order(x2, x1) == KeyOrder::Greater,
        key_order(x1, x2) == KeyOrder::Equal <==> key_order(x2, x1) == KeyOrder::Equal,
{
    vstd::arithmetic::power2::lemma_pow2_pos(x1.keybits as nat);
    vstd::arithmetic::power2::lemma_pow2_pos(x2.keybits as nat);
}

/// Every key range overlaps itself.
pub proof fn lemma_key_order_reflexive(x: ChainKey)
    ensures
        key_order(x, x) == KeyOrder::Equal,
{
    vstd::arithmetic::power2::lemma_pow2_pos(x.keybits as nat);
}

} // verus!
