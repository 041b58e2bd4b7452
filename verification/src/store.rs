//! The executable store.
//!
//! [`ScullDevData`] holds the chain of lazily allocated qset rows together
//! with the configuration and the logical size. Its view is the
//! [`StoreModel`] of [`crate::model`], and every operation's contract is
//! stated against the model functions there.
//!
//! The store itself is not a synchronization primitive: a caller is expected
//! to hold exclusive access (a mutex at the boundary) around each call.

use crate::addressing::byte_of;
use crate::addressing::item_of;
use crate::addressing::resolve;
use crate::addressing::slot_of;
use crate::model::bytes_or_zeroes;
use crate::model::extended_chain;
use crate::model::fresh_model;
use crate::model::lemma_extended_chain_wf;
use crate::model::lemma_store_after_write_wf;
use crate::model::node_wf;
use crate::model::overwritten;
use crate::model::quantum_wf;
use crate::model::read_result;
use crate::model::reset_model;
use crate::model::row_or_empty;
use crate::model::store_after_write;
use crate::model::write_len_model;
use crate::model::NodeModel;
use crate::model::QuantumModel;
use crate::model::StoreModel;
use crate::model::QSET_DEFAULT;
use crate::model::QUANTUM_DEFAULT;
use vstd::prelude::*;

verus! {

/// A quantum: one block of stored bytes.
pub type Quantum = Vec<u8>;

/// A qset row: a fixed-length array of optional quanta.
pub type QSet = Vec<Option<Quantum>>;

/// Why an operation was refused.
#[derive(Clone, Copy, Debug, PartialEq, Eq, Structural)]
pub enum ScullError {
    /// The configuration in force makes the item span zero bytes, or a
    /// configuration with a zero value was proposed.
    ConfigurationError,
    /// A control command code that the store does not recognize.
    UnsupportedCommand,
}

/// The storage engine: a growable chain of optional qset rows, the
/// configuration, and the logical size.
pub struct ScullDevData {
    /// Node `i` of the chain covers item `i` of the offset space; `None`
    /// means no write ever landed in that item.
    data: Vec<Option<QSet>>,
    /// Quantum size in bytes.
    quantum: usize,
    /// Number of quanta per qset row.
    qset: usize,
    /// High-water mark of `offset + bytes_written` over all writes.
    size: u64,
}

/// The model of one stored quantum.
pub open spec fn quantum_model_of(q: Option<Quantum>) -> QuantumModel {
    match q {
        Some(bytes) => Some(bytes@),
        None => None,
    }
}

/// The model of one chain node.
pub open spec fn node_model_of(n: Option<QSet>) -> NodeModel {
    match n {
        Some(row) => Some(Seq::new(row@.len(), |j: int| quantum_model_of(row@[j]))),
        None => None,
    }
}

impl View for ScullDevData {
    type V = StoreModel;

    closed spec fn view(&self) -> StoreModel {
        StoreModel {
            chain: Seq::new(self.data@.len(), |i: int| node_model_of(self.data@[i])),
            quantum: self.quantum as nat,
            qset: self.qset as nat,
            size: self.size as nat,
        }
    }
}

impl ScullDevData {
    /// A fresh store: empty chain, default configuration, logical size zero.
    pub fn new() -> (s: Self)
        ensures
            s@ == fresh_model(),
            s@.wf(),
    {
        let s = ScullDevData {
            data: Vec::new(),
            quantum: QUANTUM_DEFAULT,
            qset: QSET_DEFAULT,
            size: 0,
        };
        proof {
            assert(s@ =~~= fresh_model());
            assert(s@.quantum * s@.qset == 4000000) by (nonlinear_arith)
                requires
                    s@.quantum == 4000,
                    s@.qset == 1000,
            ;
        }
        s
    }

    /// The configured quantum size.
    pub fn quantum_size(&self) -> (r: usize)
        ensures
            r == self@.quantum,
    {
        self.quantum
    }

    /// The configured qset capacity.
    pub fn qset_capacity(&self) -> (r: usize)
        ensures
            r == self@.qset,
    {
        self.qset
    }

    /// The logical size: one past the highest offset ever written.
    pub fn logical_size(&self) -> (r: u64)
        ensures
            r == self@.size,
    {
        self.size
    }

    /// How many chain nodes exist (allocated contiguously from item zero).
    pub fn chain_nodes(&self) -> (r: usize)
        ensures
            r == self@.chain.len(),
    {
        self.data.len()
    }

    /// Releases the whole chain and restores the defaults. Cannot fail, and
    /// does not depend on the prior state.
    pub fn reset(&mut self)
        ensures
            final(self)@ == reset_model(old(self)@),
            final(self)@.wf(),
    {
        self.data = Vec::new();
        self.quantum = QUANTUM_DEFAULT;
        self.qset = QSET_DEFAULT;
        self.size = 0;
        proof {
            assert(self@ =~~= fresh_model());
        }
    }

    /// Sets the configuration. Only allowed while the chain is empty
    /// (freshly created or just reset); both values must be positive, and a
    /// zero value is refused with `ConfigurationError` and no change.
    pub fn configure(&mut self, quantum: usize, qset: usize) -> (r: Result<(), ScullError>)
        requires
            old(self)@.chain.len() == 0,
            quantum * qset <= usize::MAX,
        ensures
            r is Ok <==> quantum > 0 && qset > 0,
            r is Ok ==> final(self)@ == (StoreModel {
                chain: old(self)@.chain,
                quantum: quantum as nat,
                qset: qset as nat,
                size: old(self)@.size,
            }) && final(self)@.wf(),
            r matches Err(e) ==> e == ScullError::ConfigurationError
                && final(self)@ == old(self)@,
    {
        if quantum == 0 || qset == 0 {
            return Err(ScullError::ConfigurationError);
        }
        self.quantum = quantum;
        self.qset = qset;
        Ok(())
    }

    /// The single supported control command: code `0` resets the store; any
    /// other code is refused as unsupported, with no change.
    pub fn command(&mut self, cmd: u32) -> (r: Result<i64, ScullError>)
        ensures
            r is Ok <==> cmd == 0,
            r matches Ok(v) ==> v == 0 && final(self)@ == reset_model(old(self)@)
                && final(self)@.wf(),
            r matches Err(e) ==> e == ScullError::UnsupportedCommand
                && final(self)@ == old(self)@,
    {
        match cmd {
            0u32 => {
                self.reset();
                Ok(0)
            },
            _ => Err(ScullError::UnsupportedCommand),
        }
    }

    /// Grows the chain contiguously until the node at position `item`
    /// exists; nodes added on the way are unallocated. Nothing else changes.
    fn follow(&mut self, item: usize)
        requires
            item < usize::MAX,
        ensures
            final(self)@ == (StoreModel {
                chain: extended_chain(old(self)@.chain, item as int),
                quantum: old(self)@.quantum,
                qset: old(self)@.qset,
                size: old(self)@.size,
            }),
            final(self)@.chain.len() >= item + 1,
            old(self)@.wf() ==> final(self)@.wf(),
    {
        proof {
            if old(self)@.wf() {
                lemma_extended_chain_wf(old(self)@, item as int);
            }
        }
        while self.data.len() < item + 1
            invariant
                item < usize::MAX,
                old(self).data@.len() <= self.data@.len(),
                self.data@.len() <= item + 1 || self.data@.len() == old(self).data@.len(),
                self.quantum == old(self).quantum,
                self.qset == old(self).qset,
                self.size == old(self).size,
                self.data@ == old(self).data@ + Seq::new(
                    (self.data@.len() - old(self).data@.len()) as nat,
                    |k: int| None::<QSet>,
                ),
            decreases item + 1 - self.data.len(),
        {
            self.data.push(None);
        }
        proof {
            assert(self@.chain =~~= extended_chain(old(self)@.chain, item as int));
            assert(self@ =~~= (StoreModel {
                chain: extended_chain(old(self)@.chain, item as int),
                quantum: old(self)@.quantum,
                qset: old(self)@.qset,
                size: old(self)@.size,
            }));
        }
    }

    /// Writes `bytes` at `offset`, growing the chain and materializing the
    /// row and the quantum as needed, and returns how many bytes were
    /// stored: the count, clamped at the end of the quantum that `offset`
    /// falls in, so one call never spans two quanta. Raises the logical
    /// size to the end of the write when that lies beyond it. A
    /// configuration whose item span is zero bytes is refused with
    /// `ConfigurationError`, with no change.
    #[verifier::loop_isolation(false)]
    pub fn write(&mut self, offset: u64, bytes: &Vec<u8>) -> (r: Result<usize, ScullError>)
        requires
            old(self)@.wf(),
            bytes@.len() >= 1,
            offset + bytes@.len() <= u64::MAX,
            old(self)@.span() > 0 ==> item_of(
                offset as int,
                old(self)@.quantum,
                old(self)@.qset,
            ) < usize::MAX,
        ensures
            r is Ok <==> old(self)@.span() > 0,
            r matches Ok(n) ==> n == write_len_model(
                old(self)@,
                offset as int,
                bytes@.len() as int,
            ) && 1 <= n <= bytes@.len() && final(self)@ == store_after_write(
                old(self)@,
                offset as int,
                bytes@,
            ) && final(self)@.wf(),
            r matches Err(e) ==> e == ScullError::ConfigurationError
                && final(self)@ == old(self)@,
    {
        let ghost m0 = old(self)@;
        let quantum = self.quantum;
        let qset = self.qset;
        let span = quantum * qset;
        if span == 0 {
            return Err(ScullError::ConfigurationError);
        }
        proof {
            assert(quantum > 0 && qset > 0) by (nonlinear_arith)
                requires
                    quantum * qset != 0,
            ;
            crate::addressing::lemma_resolve(offset as int, quantum as nat, qset as nat);
            lemma_store_after_write_wf(m0, offset as int, bytes@);
        }
        let ghost it = item_of(offset as int, m0.quantum, m0.qset);
        let ghost sl = slot_of(offset as int, m0.quantum, m0.qset);
        let ghost by = byte_of(offset as int, m0.quantum, m0.qset);
        let (item64, s_pos, q_pos) = resolve(offset, quantum, qset);
        let item = item64 as usize;
        self.follow(item);
        let ghost m_f = self@;
        let ghost chain1 = extended_chain(m0.chain, it);
        let ghost row_m = row_or_empty(chain1[it], m0.qset);
        let ghost buf_m = bytes_or_zeroes(row_m[sl], m0.quantum);
        proof {
            assert(node_wf(m_f.chain[it], m0.quantum, m0.qset));
        }
        // Take the node's row out of the chain, materializing it if absent.
        let ghost data_f = self.data@;
        let mut row: QSet = match self.data.remove(item) {
            Some(row) => row,
            None => new_qset(qset),
        };
        proof {
            assert(Seq::new(row@.len(), |j: int| quantum_model_of(row@[j])) =~~= row_m);
            assert(quantum_wf(row_m[sl], m0.quantum));
        }
        // Take the quantum out of the row, materializing it if absent.
        let ghost row_pre = row@;
        let mut buf: Quantum = match row.remove(s_pos) {
            Some(buf) => buf,
            None => new_quantum(quantum),
        };
        proof {
            assert(buf@ =~= buf_m);
        }
        let count = bytes.len();
        let write_len = if count > quantum - q_pos {
            quantum - q_pos
        } else {
            count
        };
        let ghost buf0 = buf@;
        let mut i: usize = 0;
        while i < write_len
            invariant
                i <= write_len,
                buf@.len() == buf0.len(),
                forall|k: int|
                    0 <= k < buf@.len() ==> buf@[k] == (if q_pos <= k < q_pos + i {
                        bytes@[k - q_pos]
                    } else {
                        buf0[k]
                    }),
            decreases write_len - i,
        {
            let b = bytes[i];
            buf[q_pos + i] = b;
            i = i + 1;
        }
        let ghost buf1_m = overwritten(buf_m, by, bytes@.take(write_len as int));
        proof {
            assert(buf@ =~= buf1_m);
        }
        row.insert(s_pos, Some(buf));
        self.data.insert(item, Some(row));
        proof {
            assert(row@ =~= row_pre.update(sl, Some(buf)));
            assert(self.data@ =~= data_f.update(it, Some(row)));
            assert(Seq::new(row@.len(), |j: int| quantum_model_of(row@[j])) =~~= row_m.update(
                sl,
                Some(buf1_m),
            ));
        }
        let new_end = offset + write_len as u64;
        if self.size < new_end {
            self.size = new_end;
        }
        proof {
            assert(self@.chain =~~= chain1.update(it, Some(row_m.update(sl, Some(buf1_m)))));
            assert(self@ =~~= store_after_write(m0, offset as int, bytes@));
        }
        Ok(write_len)
    }

    /// Reads up to `max_len` bytes at `offset`, never crossing the end of
    /// the quantum that `offset` falls in. Returns an empty result at or
    /// past the logical size (end of stream), and for an offset below it
    /// whose node, row or quantum was never written (a hole); reading never
    /// allocates. A configuration whose item span is zero bytes is refused
    /// with `ConfigurationError`.
    #[verifier::loop_isolation(false)]
    pub fn read(&self, offset: u64, max_len: usize) -> (r: Result<Vec<u8>, ScullError>)
        requires
            self@.wf(),
        ensures
            r is Ok <==> self@.span() > 0,
            r matches Ok(v) ==> v@ == read_result(self@, offset as int, max_len as int),
            r matches Err(e) ==> e == ScullError::ConfigurationError,
    {
        let quantum = self.quantum;
        let qset = self.qset;
        let span = quantum * qset;
        if span == 0 {
            return Err(ScullError::ConfigurationError);
        }
        if offset >= self.size {
            return Ok(Vec::new());
        }
        proof {
            assert(quantum > 0 && qset > 0) by (nonlinear_arith)
                requires
                    quantum * qset != 0,
            ;
            crate::addressing::lemma_resolve(offset as int, quantum as nat, qset as nat);
        }
        let ghost it = item_of(offset as int, self@.quantum, self@.qset);
        let ghost sl = slot_of(offset as int, self@.quantum, self@.qset);
        let ghost by = byte_of(offset as int, self@.quantum, self@.qset);
        let (item64, s_pos, q_pos) = resolve(offset, quantum, qset);
        if item64 >= self.data.len() as u64 {
            return Ok(Vec::new());
        }
        let item = item64 as usize;
        proof {
            assert(node_wf(self@.chain[it], self@.quantum, self@.qset));
        }
        match &self.data[item] {
            None => Ok(Vec::new()),
            Some(row) => {
                let ghost rm = Seq::new(row@.len(), |j: int| quantum_model_of(row@[j]));
                proof {
                    assert(self@.chain[it] == Some(rm));
                    assert(rm.len() == self@.qset);
                    assert(quantum_wf(rm[sl], self@.quantum));
                }
                match &row[s_pos] {
                    None => Ok(Vec::new()),
                    Some(buf) => {
                        proof {
                            assert(rm[sl] == Some(buf@));
                            assert(buf@.len() == self@.quantum);
                        }
                        let mut count = max_len;
                        if (self.size - offset) < count as u64 {
                            count = (self.size - offset) as usize;
                        }
                        if count > quantum - q_pos {
                            count = quantum - q_pos;
                        }
                        let end = if q_pos + count <= buf.len() {
                            q_pos + count
                        } else {
                            buf.len()
                        };
                        let mut out: Vec<u8> = Vec::new();
                        let mut i = q_pos;
                        while i < end
                            invariant
                                q_pos <= i <= end,
                                out@ == buf@.subrange(q_pos as int, i as int),
                            decreases end - i,
                        {
                            let b = buf[i];
                            out.push(b);
                            i = i + 1;
                        }
                        proof {
                            assert(out@ =~= read_result(self@, offset as int, max_len as int));
                        }
                        Ok(out)
                    },
                }
            },
        }
    }
}

/// A freshly allocated row: `cap` slots, all unallocated.
fn new_qset(cap: usize) -> (r: QSet)
    ensures
        r@.len() == cap,
        forall|j: int| 0 <= j < cap ==> r@[j] is None,
{
    let mut r: QSet = Vec::new();
    while r.len() < cap
        invariant
            r@.len() <= cap,
            forall|j: int| 0 <= j < r@.len() ==> r@[j] is None,
        decreases cap - r.len(),
    {
        r.push(None);
    }
    r
}

/// A freshly allocated quantum: `len` zero bytes.
fn new_quantum(len: usize) -> (r: Quantum)
    ensures
        r@ == Seq::new(len as nat, |k: int| 0u8),
{
    let mut r: Quantum = Vec::new();
    while r.len() < len
        invariant
            r@.len() <= len,
            forall|k: int| 0 <= k < r@.len() ==> r@[k] == 0u8,
        decreases len - r.len(),
    {
        r.push(0u8);
    }
    proof {
        assert(r@ =~= Seq::new(len as nat, |k: int| 0u8));
    }
    r
}

} // verus!
