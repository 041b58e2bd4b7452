//! Address arithmetic: mapping a flat byte offset to a chain position.
//!
//! An "item" is the span of the offset space covered by one chain node:
//! `quantum * qset` bytes, i.e. one full row of quanta. Within an item, an
//! offset falls into one slot (which quantum) and one byte position inside
//! that quantum.

use vstd::arithmetic::div_mod::lemma_div_pos_is_pos;
use vstd::arithmetic::div_mod::lemma_fundamental_div_mod;
use vstd::arithmetic::div_mod::lemma_mod_division_less_than_divisor;
use vstd::arithmetic::div_mod::lemma_multiply_divide_lt;
use vstd::prelude::*;

verus! {

/// Bytes spanned by one chain node: a full row of `qset` quanta of
/// `quantum` bytes each.
pub open spec fn item_span(quantum: nat, qset: nat) -> nat {
    quantum * qset
}

/// Chain position of the node holding `offset`.
pub open spec fn item_of(offset: int, quantum: nat, qset: nat) -> int
    recommends
        item_span(quantum, qset) > 0,
{
    offset / item_span(quantum, qset) as int
}

/// Slot, within the node's row, of the quantum holding `offset`.
pub open spec fn slot_of(offset: int, quantum: nat, qset: nat) -> int
    recommends
        item_span(quantum, qset) > 0,
{
    (offset % item_span(quantum, qset) as int) / quantum as int
}

/// Byte position of `offset` inside its quantum.
pub open spec fn byte_of(offset: int, quantum: nat, qset: nat) -> int
    recommends
        item_span(quantum, qset) > 0,
{
    (offset % item_span(quantum, qset) as int) % quantum as int
}

/// The three coordinates of a nonnegative offset are in range, and together
/// they reconstruct the offset exactly.
pub proof fn lemma_resolve(offset: int, quantum: nat, qset: nat)
    requires
        offset >= 0,
        quantum > 0,
        qset > 0,
    ensures
        0 <= item_of(offset, quantum, qset),
        0 <= slot_of(offset, quantum, qset) < qset,
        0 <= byte_of(offset, quantum, qset) < quantum,
        offset == item_of(offset, quantum, qset) * item_span(quantum, qset)
            + slot_of(offset, quantum, qset) * quantum + byte_of(offset, quantum, qset),
{
    let span = item_span(quantum, qset) as int;
    let q = quantum as int;
    assert(span == q * qset) by (nonlinear_arith)
        requires
            span == quantum * qset,
            q == quantum,
    ;
    assert(span > 0) by (nonlinear_arith)
        requires
            quantum > 0,
            qset > 0,
            span == quantum * qset,
    ;
    let rest = offset % span;
    lemma_div_pos_is_pos(offset, span);
    lemma_mod_division_less_than_divisor(offset, span);
    lemma_fundamental_div_mod(offset, span);
    lemma_mod_division_less_than_divisor(rest, q);
    lemma_fundamental_div_mod(rest, q);
    lemma_div_pos_is_pos(rest, q);
    lemma_multiply_divide_lt(rest, q, qset as int);
    assert(offset == span * (offset / span) + rest);
    assert(rest == q * (rest / q) + rest % q);
    assert(item_of(offset, quantum, qset) * span == span * (offset / span))
        by (nonlinear_arith)
        requires
            item_of(offset, quantum, qset) == offset / span,
    ;
    assert(slot_of(offset, quantum, qset) * q == q * (rest / q)) by (nonlinear_arith)
        requires
            slot_of(offset, quantum, qset) == rest / q,
    ;
}

/// Resolves `offset` against the given configuration, returning the chain
/// position, the slot inside the node's row, and the byte inside the quantum.
pub fn resolve(offset: u64, quantum: usize, qset: usize) -> (r: (u64, usize, usize))
    requires
        quantum * qset > 0,
        quantum * qset <= usize::MAX,
    ensures
        r.0 == item_of(offset as int, quantum as nat, qset as nat),
        r.1 == slot_of(offset as int, quantum as nat, qset as nat),
        r.2 == byte_of(offset as int, quantum as nat, qset as nat),
{
    proof {
        lemma_resolve(offset as int, quantum as nat, qset as nat);
    }
    let span = quantum * qset;
    let item = offset / (span as u64);
    let rest = offset % (span as u64);
    let slot = (rest / (quantum as u64)) as usize;
    let byte = (rest % (quantum as u64)) as usize;
    (item, slot, byte)
}

} // verus!
