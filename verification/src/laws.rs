//! Laws the store obeys, proved over the model in [`crate::model`].
//!
//! Each law is stated against the same spec functions that the contracts of
//! [`crate::store::ScullDevData`]'s operations use, so it carries over to
//! the executable operations through their `ensures` clauses.

use crate::addressing::byte_of;
use crate::addressing::item_of;
use crate::addressing::lemma_resolve;
use crate::addressing::slot_of;
use crate::model::bytes_or_zeroes;
use crate::model::extended_chain;
use crate::model::lemma_extended_chain_wf;
use crate::model::node_wf;
use crate::model::overwritten;
use crate::model::quantum_wf;
use crate::model::read_result;
use crate::model::reset_model;
use crate::model::row_or_empty;
use crate::model::store_after_write;
use crate::model::write_len_model;
use crate::model::StoreModel;
use vstd::prelude::*;

verus! {

/// Round trip: a write whose bytes fit between its offset and the end of
/// that offset's quantum stores them all, and a read of the same length at
/// the same offset returns exactly those bytes.
///
/// The fit condition is needed: a write that would cross the end of its
/// quantum is clamped, and the read then returns only the stored prefix.
pub proof fn lemma_write_read_round_trip(m: StoreModel, offset: int, bytes: Seq<u8>)
    requires
        m.wf(),
        m.quantum > 0,
        m.qset > 0,
        offset >= 0,
        bytes.len() >= 1,
        byte_of(offset, m.quantum, m.qset) + bytes.len() <= m.quantum,
    ensures
        write_len_model(m, offset, bytes.len() as int) == bytes.len(),
        read_result(store_after_write(m, offset, bytes), offset, bytes.len() as int) == bytes,
{
    lemma_resolve(offset, m.quantum, m.qset);
    let it = item_of(offset, m.quantum, m.qset);
    let sl = slot_of(offset, m.quantum, m.qset);
    let by = byte_of(offset, m.quantum, m.qset);
    let wl = write_len_model(m, offset, bytes.len() as int);
    assert(wl == bytes.len());
    let chain1 = extended_chain(m.chain, it);
    let row = row_or_empty(chain1[it], m.qset);
    let buf = bytes_or_zeroes(row[sl], m.quantum);
    let buf1 = overwritten(buf, by, bytes.take(wl));
    let row1 = row.update(sl, Some(buf1));
    let m1 = store_after_write(m, offset, bytes);
    lemma_extended_chain_wf(m, it);
    assert(node_wf(chain1[it], m.quantum, m.qset));
    assert(row.len() == m.qset);
    assert(quantum_wf(row[sl], m.quantum));
    assert(buf.len() == m.quantum);
    assert(buf1.len() == m.quantum);
    assert(m1.chain.len() == chain1.len() >= it + 1);
    assert(m1.chain[it] == Some(row1));
    assert(row1[sl] == Some(buf1));
    assert(m1.size >= offset + wl);
    assert(offset < m1.size);
    assert(item_of(offset, m1.quantum, m1.qset) == it);
    assert(slot_of(offset, m1.quantum, m1.qset) == sl);
    assert(byte_of(offset, m1.quantum, m1.qset) == by);
    assert(read_result(m1, offset, bytes.len() as int) == buf1.subrange(by, by + bytes.len()));
    assert(buf1.subrange(by, by + bytes.len()) =~= bytes);
}

/// After a reset the logical size is zero and a read at offset zero comes
/// back empty, whatever the state before the reset was.
pub proof fn lemma_reset_then_read(m: StoreModel, count: int)
    ensures
        reset_model(m).size == 0,
        read_result(reset_model(m), 0, count) == Seq::<u8>::empty(),
{
}

/// A single write never reaches past the end of the quantum its offset
/// falls in: the stored count is bounded both by the requested count and by
/// the room left in that quantum.
pub proof fn lemma_write_clamped_to_quantum(m: StoreModel, offset: int, count: int)
    requires
        m.quantum > 0,
        m.qset > 0,
        offset >= 0,
        count >= 0,
    ensures
        write_len_model(m, offset, count) <= count,
        byte_of(offset, m.quantum, m.qset) + write_len_model(m, offset, count) <= m.quantum,
{
    lemma_resolve(offset, m.quantum, m.qset);
}

/// A read at or past the logical size returns empty: the end-of-stream
/// condition, decided before the chain is even looked at.
pub proof fn lemma_read_past_logical_size(m: StoreModel, offset: int, count: int)
    requires
        offset >= m.size,
    ensures
        read_result(m, offset, count) == Seq::<u8>::empty(),
{
}

/// Resetting twice in a row leaves exactly the state that resetting once
/// leaves.
pub proof fn lemma_reset_idempotent(m: StoreModel)
    ensures
        reset_model(reset_model(m)) == reset_model(m),
{
}

} // verus!
