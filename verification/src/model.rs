//! The mathematical model of the store.
//!
//! A [`StoreModel`] is what a store looks like to a contract: a sequence of
//! optional rows of optional byte blocks, the two configuration values, and
//! the logical size (high-water mark of bytes ever written). The spec
//! functions here say what `write`, `read` and `reset` do to that model; the
//! executable code in [`crate::store`] is proved to match them.

use crate::addressing::byte_of;
use crate::addressing::item_of;
use crate::addressing::item_span;
use crate::addressing::slot_of;
use vstd::math::min;
use vstd::prelude::*;

verus! {

/// A quantum as the model sees it: absent until first written, then exactly
/// its bytes.
pub type QuantumModel = Option<Seq<u8>>;

/// A chain node as the model sees it: absent until a write lands in its
/// item, then a fixed-length row of optional quanta.
pub type NodeModel = Option<Seq<QuantumModel>>;

/// Default quantum size in bytes.
pub const QUANTUM_DEFAULT: usize = 4000;

/// Default number of quanta per qset row.
pub const QSET_DEFAULT: usize = 1000;

/// The abstract state of a store.
#[verifier::ext_equal]
pub struct StoreModel {
    /// The chain of nodes, position `i` covering item `i` of the offset space.
    pub chain: Seq<NodeModel>,
    /// Configured quantum size in bytes.
    pub quantum: nat,
    /// Configured number of quanta per row.
    pub qset: nat,
    /// High-water mark: max of `offset + bytes_written` over all writes.
    pub size: nat,
}

impl StoreModel {
    /// Bytes spanned by one chain node under this configuration.
    pub open spec fn span(self) -> nat {
        item_span(self.quantum, self.qset)
    }

    /// Well-formedness: the configured span fits the machine, every
    /// allocated row has exactly `qset` slots, and every allocated quantum
    /// holds exactly `quantum` bytes.
    pub open spec fn wf(self) -> bool {
        &&& self.quantum * self.qset <= usize::MAX
        &&& forall|i: int|
            0 <= i < self.chain.len() ==> #[trigger] node_wf(self.chain[i], self.quantum, self.qset)
    }
}

/// An allocated row has exactly `qset` slots, each a well-formed quantum.
pub open spec fn node_wf(n: NodeModel, quantum: nat, qset: nat) -> bool {
    match n {
        Some(row) => row.len() == qset && forall|j: int|
            0 <= j < row.len() ==> #[trigger] quantum_wf(row[j], quantum),
        None => true,
    }
}

/// An allocated quantum holds exactly `quantum` bytes.
pub open spec fn quantum_wf(q: QuantumModel, quantum: nat) -> bool {
    match q {
        Some(bytes) => bytes.len() == quantum,
        None => true,
    }
}

/// The state every store starts in, and that `reset` restores: empty chain,
/// default configuration, logical size zero.
pub open spec fn fresh_model() -> StoreModel {
    StoreModel {
        chain: Seq::empty(),
        quantum: QUANTUM_DEFAULT as nat,
        qset: QSET_DEFAULT as nat,
        size: 0,
    }
}

/// What `reset` leaves behind: the fresh state, regardless of the prior one.
pub open spec fn reset_model(m: StoreModel) -> StoreModel {
    fresh_model()
}

/// The chain grown contiguously so that position `item` exists; new nodes
/// are unallocated.
pub open spec fn extended_chain(chain: Seq<NodeModel>, item: int) -> Seq<NodeModel>
    recommends
        item >= 0,
{
    if chain.len() >= item + 1 {
        chain
    } else {
        chain + Seq::new((item + 1 - chain.len()) as nat, |k: int| None::<Seq<QuantumModel>>)
    }
}

/// A node's row, materialized: an unallocated node reads as a row of `qset`
/// empty slots.
pub open spec fn row_or_empty(n: NodeModel, qset: nat) -> Seq<QuantumModel> {
    match n {
        Some(row) => row,
        None => Seq::new(qset, |j: int| None::<Seq<u8>>),
    }
}

/// A slot's bytes, materialized: an unallocated quantum starts as `quantum`
/// zero bytes.
pub open spec fn bytes_or_zeroes(q: QuantumModel, quantum: nat) -> Seq<u8> {
    match q {
        Some(bytes) => bytes,
        None => Seq::new(quantum, |k: int| 0u8),
    }
}

/// `buf` with `bytes` laid over it starting at position `at`.
pub open spec fn overwritten(buf: Seq<u8>, at: int, bytes: Seq<u8>) -> Seq<u8> {
    Seq::new(
        buf.len(),
        |k: int| if at <= k < at + bytes.len() { bytes[k - at] } else { buf[k] },
    )
}

/// How many bytes a write of `count` bytes at `offset` stores: the count,
/// clamped so the write never crosses the end of its quantum.
pub open spec fn write_len_model(m: StoreModel, offset: int, count: int) -> int
    recommends
        m.span() > 0,
        offset >= 0,
{
    min(count, m.quantum as int - byte_of(offset, m.quantum, m.qset))
}

/// The store after a successful `write(offset, bytes)`: the chain is grown
/// to the offset's item, the row and the quantum are materialized, the
/// written range is overlaid, and the logical size is raised to the end of
/// the write if that is beyond it.
pub open spec fn store_after_write(m: StoreModel, offset: int, bytes: Seq<u8>) -> StoreModel
    recommends
        m.span() > 0,
        offset >= 0,
        bytes.len() >= 1,
{
    let it = item_of(offset, m.quantum, m.qset);
    let sl = slot_of(offset, m.quantum, m.qset);
    let by = byte_of(offset, m.quantum, m.qset);
    let wl = write_len_model(m, offset, bytes.len() as int);
    let chain1 = extended_chain(m.chain, it);
    let row = row_or_empty(chain1[it], m.qset);
    let buf = bytes_or_zeroes(row[sl], m.quantum);
    let buf1 = overwritten(buf, by, bytes.take(wl));
    StoreModel {
        chain: chain1.update(it, Some(row.update(sl, Some(buf1)))),
        quantum: m.quantum,
        qset: m.qset,
        size: if offset + wl <= m.size { m.size } else { (offset + wl) as nat },
    }
}

/// What a `read(offset, count)` returns. Empty at or past the logical size
/// (end of stream), and empty below it when the offset's node, row or
/// quantum was never allocated (a hole). Otherwise the slice of the one
/// quantum holding `offset`, clamped to the request, to the quantum's end,
/// to the logical size, and defensively to the stored buffer's length.
pub open spec fn read_result(m: StoreModel, offset: int, count: int) -> Seq<u8>
    recommends
        m.span() > 0,
        offset >= 0,
        count >= 0,
{
    if offset >= m.size {
        Seq::empty()
    } else {
        let it = item_of(offset, m.quantum, m.qset);
        let sl = slot_of(offset, m.quantum, m.qset);
        let by = byte_of(offset, m.quantum, m.qset);
        if it >= m.chain.len() {
            Seq::empty()
        } else {
            match m.chain[it] {
                None => Seq::empty(),
                Some(row) => match row[sl] {
                    None => Seq::empty(),
                    Some(buf) => {
                        let avail = min(
                            min(count, m.quantum as int - by),
                            min(m.size as int - offset, buf.len() as int - by),
                        );
                        if avail <= 0 {
                            Seq::empty()
                        } else {
                            buf.subrange(by, by + avail)
                        }
                    },
                },
            }
        }
    }
}

/// Growing the chain preserves well-formedness: the nodes added are
/// unallocated.
pub proof fn lemma_extended_chain_wf(m: StoreModel, item: int)
    requires
        m.wf(),
        item >= 0,
    ensures
        (StoreModel { chain: extended_chain(m.chain, item), ..m }).wf(),
{
    let c1 = extended_chain(m.chain, item);
    assert forall|i: int| 0 <= i < c1.len() implies #[trigger] node_wf(c1[i], m.quantum, m.qset) by {
        if i < m.chain.len() {
            assert(node_wf(m.chain[i], m.quantum, m.qset));
        }
    }
}

/// A successful write preserves well-formedness: the one row it touches
/// keeps its length, and the one quantum it touches keeps or takes the
/// configured size.
pub proof fn lemma_store_after_write_wf(m: StoreModel, offset: int, bytes: Seq<u8>)
    requires
        m.wf(),
        m.quantum > 0,
        m.qset > 0,
        offset >= 0,
        bytes.len() >= 1,
    ensures
        store_after_write(m, offset, bytes).wf(),
{
    crate::addressing::lemma_resolve(offset, m.quantum, m.qset);
    let it = item_of(offset, m.quantum, m.qset);
    let sl = slot_of(offset, m.quantum, m.qset);
    let by = byte_of(offset, m.quantum, m.qset);
    let wl = write_len_model(m, offset, bytes.len() as int);
    let chain1 = extended_chain(m.chain, it);
    let row = row_or_empty(chain1[it], m.qset);
    let buf = bytes_or_zeroes(row[sl], m.quantum);
    let buf1 = overwritten(buf, by, bytes.take(wl));
    let m1 = store_after_write(m, offset, bytes);
    lemma_extended_chain_wf(m, it);
    assert(node_wf(chain1[it], m.quantum, m.qset));
    assert(row.len() == m.qset);
    assert(quantum_wf(row[sl], m.quantum));
    assert(buf.len() == m.quantum);
    assert(buf1.len() == m.quantum);
    let row1 = row.update(sl, Some(buf1));
    assert(node_wf(Some(row1), m.quantum, m.qset)) by {
        assert forall|j: int| 0 <= j < row1.len() implies #[trigger] quantum_wf(
            row1[j],
            m.quantum,
        ) by {
            if j != sl {
                assert(quantum_wf(row[j], m.quantum));
            }
        }
    }
    assert forall|i: int| 0 <= i < m1.chain.len() implies #[trigger] node_wf(
        m1.chain[i],
        m.quantum,
        m.qset,
    ) by {
        if i != it {
            assert(node_wf(chain1[i], m.quantum, m.qset));
        }
    }
}

} // verus!
