//! The synchroniser's decisions for each transaction of the chain: when to
//! write a checkpoint, then which outputs are spent and which are received.
//! Fetching blocks and appending the records to the log are the caller's.
use vstd::prelude::*;
use crate::date::BlockDate;
use crate::lookup::LookupV;
use crate::state::{run_txins, run_utxos, txin_items, utxo_items, State, StateError};
use crate::types::{copy_bytes, LogRecord, PtrV, RecordV, StatePtr, TxIn, UTxO, UtxoV, records_view};

verus! {

/// An output of a transaction: the address credited and the amount.
#[derive(Clone, Debug, PartialEq, Eq)]
pub struct TxOut {
    pub address: Vec<u8>,
    pub value: u64,
}

/// A transaction as the synchroniser reads it.
#[derive(Clone, Debug, PartialEq, Eq)]
pub struct Transaction {
    pub id: Vec<u8>,
    pub inputs: Vec<TxIn>,
    pub outputs: Vec<TxOut>,
}

/// The inputs of `tx`, each at cursor `q`.
pub open spec fn tx_inputs(q: PtrV, tx: Transaction) -> Seq<(PtrV, (Seq<u8>, u32))> {
    Seq::new(tx.inputs@.len(), |i: int| (q, tx.inputs@[i]@))
}

/// The outputs of `tx` as candidate entries, each at cursor `q`.
pub open spec fn tx_outputs(q: PtrV, tx: Transaction) -> Seq<(PtrV, UtxoV)> {
    Seq::new(
        tx.outputs@.len(),
        |i: int|
            (
                q,
                UtxoV {
                    txid: tx.id@,
                    index: i as u32,
                    address: tx.outputs@[i].address@,
                    value: tx.outputs@[i].value,
                },
            ),
    )
}

/// A checkpoint is due when a block opens an epoch other than the last one.
pub open spec fn checkpoint_due(last: BlockDate, q: PtrV) -> bool {
    match q.date {
        Some(d) => d.epoch() != last.epoch(),
        None => false,
    }
}

pub open spec fn next_last(last: BlockDate, q: PtrV) -> BlockDate {
    match q.date {
        Some(d) => d,
        None => last,
    }
}

/// The result of one transaction at cursor `q`: the last date seen, the live
/// set, the cursor, the lookup, and the records in the order they are written.
pub open spec fn sync_tx(
    last: BlockDate,
    s: Seq<UtxoV>,
    p: PtrV,
    l: LookupV,
    q: PtrV,
    tx: Transaction,
) -> Result<(BlockDate, Seq<UtxoV>, PtrV, LookupV, Seq<RecordV>), StateError> {
    let (cur0, cp) = if checkpoint_due(last, q) {
        (q, seq![RecordV::Checkpoint(q)])
    } else {
        (p, Seq::empty())
    };
    let (s1, cur1, r1) = run_txins(s, cur0, tx_inputs(q, tx));
    match run_utxos(s1, cur1, l, tx_outputs(q, tx)) {
        Ok((s2, cur2, l2, r2)) => Ok((next_last(last, q), s2, cur2, l2, cp + r1 + r2)),
        Err(e) => Err(e),
    }
}

/// The synchroniser of one session: it remembers the date of the last block.
#[derive(Clone, Debug, PartialEq, Eq)]
pub struct Synchronizer {
    pub last_date: BlockDate,
}

impl Synchronizer {
    /// A session that starts at the state's cursor.
    pub fn new(from: &StatePtr) -> (r: Synchronizer)
        ensures
            r.last_date == from@.block_date(),
    {
        Synchronizer { last_date: from.latest_block_date() }
    }

    /// Processes one transaction of the block at `ptr`, and returns the records
    /// to append, in order.
    pub fn process_transaction(
        &mut self,
        state: &mut State,
        ptr: &StatePtr,
        tx: &Transaction,
    ) -> (r: Result<Vec<LogRecord>, StateError>)
        requires
            old(state).wf(),
            tx.outputs@.len() <= u32::MAX,
        ensures
            final(state).wf(),
            match sync_tx(
                old(self).last_date,
                old(state).live(),
                old(state).ptr@,
                old(state).lookup@,
                ptr@,
                *tx,
            ) {
                Ok((d, s, p, l, rs)) => r matches Ok(v) && records_view(v@) == rs
                    && final(self).last_date == d && final(state).live() == s && final(state).ptr@
                    == p && final(state).lookup@ == l,
                Err(e) => r == Err::<Vec<LogRecord>, StateError>(e),
            },
    {
        let mut out: Vec<LogRecord> = Vec::new();
        if let Some(d) = ptr.latest_addr {
            if self.last_date.get_epochid() != d.get_epochid() {
                out.push(LogRecord::Checkpoint(ptr.copy()));
                state.ptr = ptr.copy();
            }
            self.last_date = d;
        }
        assert(records_view(out@) =~= (if checkpoint_due(old(self).last_date, ptr@) {
            seq![RecordV::Checkpoint(ptr@)]
        } else {
            Seq::empty()
        }));
        let mut ins: Vec<(StatePtr, TxIn)> = Vec::new();
        let mut i: usize = 0;
        while i < tx.inputs.len()
            invariant
                i <= tx.inputs@.len(),
                txin_items(ins@) =~= tx_inputs(ptr@, *tx).subrange(0, i as int),
            decreases tx.inputs@.len() - i,
        {
            let ghost prev = ins@;
            let txin = TxIn { id: copy_bytes(&tx.inputs[i].id), index: tx.inputs[i].index };
            ins.push((ptr.copy(), txin));
            assert(txin_items(ins@) =~= txin_items(prev).push((ptr@, tx.inputs@[i as int]@)));
            i = i + 1;
        }
        assert(tx_inputs(ptr@, *tx).subrange(0, i as int) =~= tx_inputs(ptr@, *tx));
        let mut spent = state.forward_with_txins(&ins);
        let mut outs: Vec<(StatePtr, UTxO)> = Vec::new();
        let mut j: usize = 0;
        while j < tx.outputs.len()
            invariant
                j <= tx.outputs@.len() <= u32::MAX,
                utxo_items(outs@) =~= tx_outputs(ptr@, *tx).subrange(0, j as int),
            decreases tx.outputs@.len() - j,
        {
            let u = UTxO {
                transaction_id: copy_bytes(&tx.id),
                index_in_transaction: j as u32,
                credited_address: copy_bytes(&tx.outputs[j].address),
                credited_value: tx.outputs[j].value,
            };
            let ghost prev = outs@;
            let ghost uv = u@;
            outs.push((ptr.copy(), u));
            assert(utxo_items(outs@) =~= utxo_items(prev).push((ptr@, uv)));
            j = j + 1;
        }
        assert(tx_outputs(ptr@, *tx).subrange(0, j as int) =~= tx_outputs(ptr@, *tx));
        let mut received = match state.forward_with_utxos(&outs) {
            Ok(v) => v,
            Err(e) => {
                return Err(e);
            },
        };
        let ghost r0 = records_view(out@);
        let ghost r1 = records_view(spent@);
        let ghost r2 = records_view(received@);
        out.append(&mut spent);
        out.append(&mut received);
        assert(records_view(out@) =~= r0 + r1 + r2);
        Ok(out)
    }
}

} // verus!
