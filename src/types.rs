//! The values that synchronisation works on: the cursor, unspent outputs,
//! transaction inputs and log records.
use vstd::prelude::*;
use crate::date::BlockDate;

verus! {

/// Copies a byte string.
pub fn copy_bytes(b: &Vec<u8>) -> (r: Vec<u8>)
    ensures
        r@ == b@,
{
    let r = b.clone();
    assert(r@ =~= b@);
    r
}

/// Whether two byte strings are equal.
pub fn bytes_eq(a: &Vec<u8>, b: &Vec<u8>) -> (r: bool)
    ensures
        r == (a@ == b@),
{
    if a.len() != b.len() {
        return false;
    }
    let mut i: usize = 0;
    while i < a.len()
        invariant
            a@.len() == b@.len(),
            i <= a@.len(),
            a@.subrange(0, i as int) =~= b@.subrange(0, i as int),
        decreases a@.len() - i,
    {
        if a[i] != b[i] {
            assert(a@[i as int] != b@[i as int]);
            return false;
        }
        i = i + 1;
        assert(a@.subrange(0, i as int) =~= b@.subrange(0, i as int));
    }
    assert(a@ =~= a@.subrange(0, i as int));
    assert(b@ =~= b@.subrange(0, i as int));
    true
}

/// The synchronisation cursor: the last block processed and its date.
#[derive(Clone, Debug, PartialEq, Eq)]
pub struct StatePtr {
    pub latest_known_hash: Vec<u8>,
    pub latest_addr: Option<BlockDate>,
}

pub struct PtrV {
    pub hash: Seq<u8>,
    pub date: Option<BlockDate>,
}

impl View for StatePtr {
    type V = PtrV;

    open spec fn view(&self) -> PtrV {
        PtrV { hash: self.latest_known_hash@, date: self.latest_addr }
    }
}

impl PtrV {
    /// The date of the cursor, the genesis of epoch zero before any block.
    pub open spec fn block_date(self) -> BlockDate {
        match self.date {
            Some(d) => d,
            None => BlockDate::Genesis(0),
        }
    }
}

impl StatePtr {
    /// The cursor of a wallet that has seen no block.
    pub fn genesis() -> (r: StatePtr)
        ensures
            r@.hash == Seq::<u8>::empty(),
            r@.date == None::<BlockDate>,
    {
        StatePtr { latest_known_hash: Vec::new(), latest_addr: None }
    }

    pub fn copy(&self) -> (r: StatePtr)
        ensures
            r@ == self@,
    {
        StatePtr { latest_known_hash: copy_bytes(&self.latest_known_hash), latest_addr: self.latest_addr }
    }

    pub fn latest_block_date(&self) -> (r: BlockDate)
        ensures
            r == self@.block_date(),
    {
        match self.latest_addr {
            Some(d) => d,
            None => BlockDate::Genesis(0),
        }
    }
}

/// An unspent output: where it was created, who it credits and how much.
#[derive(Clone, Debug, PartialEq, Eq)]
pub struct UTxO {
    pub transaction_id: Vec<u8>,
    pub index_in_transaction: u32,
    pub credited_address: Vec<u8>,
    pub credited_value: u64,
}

pub struct UtxoV {
    pub txid: Seq<u8>,
    pub index: u32,
    pub address: Seq<u8>,
    pub value: u64,
}

impl View for UTxO {
    type V = UtxoV;

    open spec fn view(&self) -> UtxoV {
        UtxoV {
            txid: self.transaction_id@,
            index: self.index_in_transaction,
            address: self.credited_address@,
            value: self.credited_value,
        }
    }
}

impl UtxoV {
    /// The identity of an output: its transaction and its place there.
    pub open spec fn key(self) -> (Seq<u8>, u32) {
        (self.txid, self.index)
    }
}

impl UTxO {
    pub fn copy(&self) -> (r: UTxO)
        ensures
            r@ == self@,
    {
        UTxO {
            transaction_id: copy_bytes(&self.transaction_id),
            index_in_transaction: self.index_in_transaction,
            credited_address: copy_bytes(&self.credited_address),
            credited_value: self.credited_value,
        }
    }
}

/// A transaction input: the output that it consumes.
#[derive(Clone, Debug, PartialEq, Eq)]
pub struct TxIn {
    pub id: Vec<u8>,
    pub index: u32,
}

impl View for TxIn {
    type V = (Seq<u8>, u32);

    open spec fn view(&self) -> (Seq<u8>, u32) {
        (self.id@, self.index)
    }
}

/// An entry of the wallet's log, with the cursor at which it was produced.
#[derive(Clone, Debug, PartialEq, Eq)]
pub enum LogRecord {
    Checkpoint(StatePtr),
    ReceivedFund(StatePtr, UTxO),
    SpentFund(StatePtr, UTxO),
}

pub enum RecordV {
    Checkpoint(PtrV),
    Received(PtrV, UtxoV),
    Spent(PtrV, UtxoV),
}

impl View for LogRecord {
    type V = RecordV;

    open spec fn view(&self) -> RecordV {
        match self {
            LogRecord::Checkpoint(p) => RecordV::Checkpoint(p@),
            LogRecord::ReceivedFund(p, u) => RecordV::Received(p@, u@),
            LogRecord::SpentFund(p, u) => RecordV::Spent(p@, u@),
        }
    }
}

impl RecordV {
    pub open spec fn ptr(self) -> PtrV {
        match self {
            RecordV::Checkpoint(p) => p,
            RecordV::Received(p, _) => p,
            RecordV::Spent(p, _) => p,
        }
    }
}

/// The views of a sequence of records.
pub open spec fn records_view(v: Seq<LogRecord>) -> Seq<RecordV> {
    v.map_values(|r: LogRecord| r@)
}

} // verus!
