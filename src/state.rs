//! The synchronisation state: the live set of unspent outputs, the cursor, and
//! the address lookup. Forward operations compute the records that a piece of
//! the chain produces; replay applies records, and both change the state alike.
use vstd::prelude::*;
use crate::lookup::{AddressLookup, LookupV};
use crate::types::{bytes_eq, copy_bytes, LogRecord, PtrV, RecordV, StatePtr, TxIn, UTxO, UtxoV, records_view};

verus! {

/// A breach of the live set's invariant, which the log should never cause.
#[derive(Clone, Copy, Debug, PartialEq, Eq, Structural)]
pub enum StateError {
    /// An output was received whose identity is already in the live set.
    DuplicateUtxo,
    /// An output was spent that is not in the live set.
    MissingUtxo,
}

/// No two entries share an identity.
pub open spec fn unique_keys(s: Seq<UtxoV>) -> bool {
    forall|i: int, j: int| 0 <= i < j < s.len() ==> s[i].key() != s[j].key()
}

pub open spec fn has_key(s: Seq<UtxoV>, k: (Seq<u8>, u32)) -> bool {
    exists|i: int| 0 <= i < s.len() && s[i].key() == k
}

/// Where the entry of identity `k` stands, when there is one.
pub open spec fn index_of(s: Seq<UtxoV>, k: (Seq<u8>, u32)) -> int {
    choose|i: int| 0 <= i < s.len() && s[i].key() == k
}

/// Replay of one record on a live set and a cursor.
pub open spec fn apply_record(s: Seq<UtxoV>, p: PtrV, r: RecordV) -> Result<
    (Seq<UtxoV>, PtrV),
    StateError,
> {
    match r {
        RecordV::Checkpoint(q) => Ok((s, q)),
        RecordV::Received(q, u) => if has_key(s, u.key()) {
            Err(StateError::DuplicateUtxo)
        } else {
            Ok((s.push(u), q))
        },
        RecordV::Spent(q, u) => if has_key(s, u.key()) {
            Ok((s.remove(index_of(s, u.key())), q))
        } else {
            Err(StateError::MissingUtxo)
        },
    }
}

/// Replay of records in order; the first breach stops it.
pub open spec fn apply_records(s: Seq<UtxoV>, p: PtrV, rs: Seq<RecordV>) -> Result<
    (Seq<UtxoV>, PtrV),
    StateError,
>
    decreases rs.len(),
{
    if rs.len() == 0 {
        Ok((s, p))
    } else {
        match apply_records(s, p, rs.drop_last()) {
            Ok((s1, cur1)) => apply_record(s1, cur1, rs.last()),
            Err(e) => Err(e),
        }
    }
}

/// One input: the output it consumes leaves the live set, if the wallet has it.
pub open spec fn step_txin(s: Seq<UtxoV>, p: PtrV, q: PtrV, k: (Seq<u8>, u32)) -> (
    Seq<UtxoV>,
    PtrV,
    Seq<RecordV>,
) {
    if has_key(s, k) {
        (s.remove(index_of(s, k)), q, seq![RecordV::Spent(q, s[index_of(s, k)])])
    } else {
        (s, p, Seq::empty())
    }
}

/// Inputs in order: the live set, the cursor and the records emitted.
pub open spec fn run_txins(s: Seq<UtxoV>, p: PtrV, items: Seq<(PtrV, (Seq<u8>, u32))>) -> (
    Seq<UtxoV>,
    PtrV,
    Seq<RecordV>,
)
    decreases items.len(),
{
    if items.len() == 0 {
        (s, p, Seq::empty())
    } else {
        let (s1, cur1, rs) = run_txins(s, p, items.drop_last());
        let (s2, cur2, r) = step_txin(s1, cur1, items.last().0, items.last().1);
        (s2, cur2, rs + r)
    }
}

/// One candidate output: if the lookup owns its address, it joins the live set
/// under the lookup's identity for it.
pub open spec fn step_utxo(s: Seq<UtxoV>, p: PtrV, l: LookupV, q: PtrV, c: UtxoV) -> Result<
    (Seq<UtxoV>, PtrV, LookupV, Seq<RecordV>),
    StateError,
> {
    let (l1, owned) = l.lookup(c.address);
    match owned {
        None => Ok((s, p, l1, Seq::empty())),
        Some(id) => {
            let e = UtxoV { address: id, ..c };
            if has_key(s, e.key()) {
                Err(StateError::DuplicateUtxo)
            } else {
                Ok((s.push(e), q, l1, seq![RecordV::Received(q, e)]))
            }
        },
    }
}

/// Candidate outputs in order; the first breach stops it.
pub open spec fn run_utxos(s: Seq<UtxoV>, p: PtrV, l: LookupV, items: Seq<(PtrV, UtxoV)>) -> Result<
    (Seq<UtxoV>, PtrV, LookupV, Seq<RecordV>),
    StateError,
>
    decreases items.len(),
{
    if items.len() == 0 {
        Ok((s, p, l, Seq::empty()))
    } else {
        match run_utxos(s, p, l, items.drop_last()) {
            Ok((s1, cur1, l1, rs)) => match step_utxo(s1, cur1, l1, items.last().0, items.last().1) {
                Ok((s2, cur2, l2, r)) => Ok((s2, cur2, l2, rs + r)),
                Err(e) => Err(e),
            },
            Err(e) => Err(e),
        }
    }
}

pub open spec fn txin_items(v: Seq<(StatePtr, TxIn)>) -> Seq<(PtrV, (Seq<u8>, u32))> {
    v.map_values(|x: (StatePtr, TxIn)| (x.0@, x.1@))
}

pub open spec fn utxo_items(v: Seq<(StatePtr, UTxO)>) -> Seq<(PtrV, UtxoV)> {
    v.map_values(|x: (StatePtr, UTxO)| (x.0@, x.1@))
}

pub open spec fn utxos_view(v: Seq<UTxO>) -> Seq<UtxoV> {
    v.map_values(|u: UTxO| u@)
}

/// The sum of the values of a live set.
pub open spec fn total(s: Seq<UtxoV>) -> int
    decreases s.len(),
{
    if s.len() == 0 {
        0
    } else {
        total(s.drop_last()) + s.last().value
    }
}

pub(crate) proof fn lemma_unique_push(s: Seq<UtxoV>, u: UtxoV)
    requires
        unique_keys(s),
        !has_key(s, u.key()),
    ensures
        unique_keys(s.push(u)),
{
    assert forall|i: int, j: int| 0 <= i < j < s.push(u).len() implies s.push(u)[i].key()
        != s.push(u)[j].key() by {
        if j == s.len() {
            assert(s[i].key() != u.key());
        }
    }
}

pub(crate) proof fn lemma_unique_remove(s: Seq<UtxoV>, k: int)
    requires
        unique_keys(s),
        0 <= k < s.len(),
    ensures
        unique_keys(s.remove(k)),
{
    let t = s.remove(k);
    assert forall|i: int, j: int| 0 <= i < j < t.len() implies t[i].key() != t[j].key() by {
        let i1 = if i < k { i } else { i + 1 };
        let j1 = if j < k { j } else { j + 1 };
        assert(t[i] == s[i1] && t[j] == s[j1]);
    }
}

proof fn lemma_index_of(s: Seq<UtxoV>, i: int)
    requires
        unique_keys(s),
        0 <= i < s.len(),
    ensures
        has_key(s, s[i].key()),
        index_of(s, s[i].key()) == i,
{
    assert(0 <= i < s.len() && s[i].key() == s[i].key());
}

/// Where the output of identity (`id`, `index`) stands in the live set.
fn find_utxo(utxos: &Vec<UTxO>, id: &Vec<u8>, index: u32) -> (r: Option<usize>)
    requires
        unique_keys(utxos_view(utxos@)),
    ensures
        r is None <==> !has_key(utxos_view(utxos@), (id@, index)),
        r matches Some(i) ==> i < utxos@.len() && index_of(utxos_view(utxos@), (id@, index)) == i,
{
    let ghost s = utxos_view(utxos@);
    let mut i: usize = 0;
    while i < utxos.len()
        invariant
            s == utxos_view(utxos@),
            unique_keys(s),
            i <= utxos@.len(),
            forall|j: int| 0 <= j < i ==> s[j].key() != (id@, index),
        decreases utxos@.len() - i,
    {
        if utxos[i].index_in_transaction == index && bytes_eq(&utxos[i].transaction_id, id) {
            proof {
                lemma_index_of(s, i as int);
            }
            return Some(i);
        }
        i = i + 1;
    }
    None
}

/// The synchronisation state of one wallet.
#[derive(Clone, Debug, PartialEq, Eq)]
pub struct State {
    pub utxos: Vec<UTxO>,
    pub ptr: StatePtr,
    pub lookup: AddressLookup,
}

impl State {
    /// The live set.
    pub open spec fn live(&self) -> Seq<UtxoV> {
        utxos_view(self.utxos@)
    }

    pub open spec fn wf(&self) -> bool {
        &&& unique_keys(self.live())
        &&& self.lookup@.wf()
    }

    /// A state with no output, at the given cursor.
    pub fn new(ptr: StatePtr, lookup: AddressLookup) -> (r: State)
        requires
            lookup@.wf(),
        ensures
            r.wf(),
            r.live() == Seq::<UtxoV>::empty(),
            r.ptr@ == ptr@,
            r.lookup@ == lookup@,
    {
        let r = State { utxos: Vec::new(), ptr, lookup };
        assert(r.live() =~= Seq::<UtxoV>::empty());
        r
    }

    pub fn ptr(&self) -> (r: &StatePtr)
        ensures
            r@ == self.ptr@,
    {
        &self.ptr
    }

    /// The outputs that the inputs consume leave the live set; one record
    /// for each, in order. Inputs the wallet does not hold are skipped.
    pub fn forward_with_txins(&mut self, items: &Vec<(StatePtr, TxIn)>) -> (r: Vec<LogRecord>)
        requires
            old(self).wf(),
        ensures
            final(self).wf(),
            final(self).lookup == old(self).lookup,
            (final(self).live(), final(self).ptr@, records_view(r@)) == run_txins(
                old(self).live(),
                old(self).ptr@,
                txin_items(items@),
            ),
    {
        let mut out: Vec<LogRecord> = Vec::new();
        let mut i: usize = 0;
        assert(records_view(out@) =~= Seq::<RecordV>::empty());
        while i < items.len()
            invariant
                self.wf(),
                self.lookup == old(self).lookup,
                i <= items@.len(),
                (self.live(), self.ptr@, records_view(out@)) == run_txins(
                    old(self).live(),
                    old(self).ptr@,
                    txin_items(items@).subrange(0, i as int),
                ),
            decreases items@.len() - i,
        {
            let ghost s0 = self.live();
            let ghost out0 = out@;
            let (q, txin) = &items[i];
            proof {
                assert(txin_items(items@).subrange(0, i as int + 1).drop_last() =~= txin_items(
                    items@,
                ).subrange(0, i as int));
            }
            match find_utxo(&self.utxos, &txin.id, txin.index) {
                Some(k) => {
                    let u = self.utxos.remove(k);
                    proof {
                        assert(self.live() =~= s0.remove(k as int));
                        lemma_unique_remove(s0, k as int);
                    }
                    out.push(LogRecord::SpentFund(q.copy(), u));
                    self.ptr = q.copy();
                    assert(records_view(out@) =~= records_view(out0) + seq![
                        RecordV::Spent(q@, s0[k as int]),
                    ]);
                },
                None => {
                    assert(records_view(out@) =~= records_view(out0) + Seq::<RecordV>::empty());
                },
            }
            i = i + 1;
        }
        assert(txin_items(items@).subrange(0, i as int) =~= txin_items(items@));
        out
    }

    /// Each candidate output whose address the lookup owns joins the live set,
    /// with one record each, in order; the others are dropped. A candidate
    /// whose identity is already live is a breach, and stops the run.
    pub fn forward_with_utxos(&mut self, items: &Vec<(StatePtr, UTxO)>) -> (r: Result<
        Vec<LogRecord>,
        StateError,
    >)
        requires
            old(self).wf(),
        ensures
            final(self).wf(),
            match run_utxos(old(self).live(), old(self).ptr@, old(self).lookup@, utxo_items(items@)) {
                Ok((s, p, l, rs)) => r matches Ok(v) && final(self).live() == s && final(self).ptr@
                    == p && final(self).lookup@ == l && records_view(v@) == rs,
                Err(e) => r == Err::<Vec<LogRecord>, StateError>(e),
            },
    {
        let mut out: Vec<LogRecord> = Vec::new();
        let mut i: usize = 0;
        assert(records_view(out@) =~= Seq::<RecordV>::empty());
        while i < items.len()
            invariant
                self.wf(),
                i <= items@.len(),
                run_utxos(
                    old(self).live(),
                    old(self).ptr@,
                    old(self).lookup@,
                    utxo_items(items@).subrange(0, i as int),
                ) == Ok::<_, StateError>((self.live(), self.ptr@, self.lookup@, records_view(out@))),
            decreases items@.len() - i,
        {
            let ghost s0 = self.live();
            let ghost out0 = out@;
            let (q, c) = &items[i];
            proof {
                assert(utxo_items(items@).subrange(0, i as int + 1).drop_last() =~= utxo_items(
                    items@,
                ).subrange(0, i as int));
            }
            match self.lookup.lookup(&c.credited_address) {
                Some(id) => {
                    let e = UTxO {
                        transaction_id: copy_bytes(&c.transaction_id),
                        index_in_transaction: c.index_in_transaction,
                        credited_address: id,
                        credited_value: c.credited_value,
                    };
                    match find_utxo(&self.utxos, &e.transaction_id, e.index_in_transaction) {
                        Some(_) => {
                            proof {
                                assert(utxo_items(items@).subrange(0, i as int + 1) =~= utxo_items(
                                    items@,
                                ).subrange(0, i as int + 1));
                                lemma_run_utxos_err_extends(
                                    old(self).live(),
                                    old(self).ptr@,
                                    old(self).lookup@,
                                    utxo_items(items@),
                                    i as int + 1,
                                );
                            }
                            return Err(StateError::DuplicateUtxo);
                        },
                        None => {
                            let ec = e.copy();
                            self.utxos.push(ec);
                            proof {
                                assert(self.live() =~= s0.push(e@));
                                lemma_unique_push(s0, e@);
                            }
                            out.push(LogRecord::ReceivedFund(q.copy(), e));
                            self.ptr = q.copy();
                            assert(records_view(out@) =~= records_view(out0) + seq![
                                RecordV::Received(q@, e@),
                            ]);
                        },
                    }
                },
                None => {
                    assert(records_view(out@) =~= records_view(out0) + Seq::<RecordV>::empty());
                },
            }
            i = i + 1;
        }
        assert(utxo_items(items@).subrange(0, i as int) =~= utxo_items(items@));
        Ok(out)
    }

    /// Replays records in order, as the forward operations that produced
    /// them changed the state. A breach stops the replay.
    pub fn update_with_logs(&mut self, logs: &Vec<LogRecord>) -> (r: Result<(), StateError>)
        requires
            old(self).wf(),
        ensures
            final(self).wf(),
            final(self).lookup == old(self).lookup,
            match apply_records(old(self).live(), old(self).ptr@, records_view(logs@)) {
                Ok((s, p)) => r is Ok && final(self).live() == s && final(self).ptr@ == p,
                Err(e) => r == Err::<(), StateError>(e),
            },
    {
        let mut i: usize = 0;
        while i < logs.len()
            invariant
                self.wf(),
                self.lookup == old(self).lookup,
                i <= logs@.len(),
                apply_records(
                    old(self).live(),
                    old(self).ptr@,
                    records_view(logs@).subrange(0, i as int),
                ) == Ok::<_, StateError>((self.live(), self.ptr@)),
            decreases logs@.len() - i,
        {
            let ghost s0 = self.live();
            proof {
                assert(records_view(logs@).subrange(0, i as int + 1).drop_last() =~= records_view(
                    logs@,
                ).subrange(0, i as int));
            }
            match &logs[i] {
                LogRecord::Checkpoint(q) => {
                    self.ptr = q.copy();
                },
                LogRecord::ReceivedFund(q, u) => {
                    match find_utxo(&self.utxos, &u.transaction_id, u.index_in_transaction) {
                        Some(_) => {
                            proof {
                                lemma_apply_err_extends(
                                    old(self).live(),
                                    old(self).ptr@,
                                    records_view(logs@),
                                    i as int + 1,
                                );
                            }
                            return Err(StateError::DuplicateUtxo);
                        },
                        None => {
                            self.utxos.push(u.copy());
                            proof {
                                assert(self.live() =~= s0.push(u@));
                                lemma_unique_push(s0, u@);
                            }
                            self.ptr = q.copy();
                        },
                    }
                },
                LogRecord::SpentFund(q, u) => {
                    match find_utxo(&self.utxos, &u.transaction_id, u.index_in_transaction) {
                        Some(k) => {
                            self.utxos.remove(k);
                            proof {
                                assert(self.live() =~= s0.remove(k as int));
                                lemma_unique_remove(s0, k as int);
                            }
                            self.ptr = q.copy();
                        },
                        None => {
                            proof {
                                lemma_apply_err_extends(
                                    old(self).live(),
                                    old(self).ptr@,
                                    records_view(logs@),
                                    i as int + 1,
                                );
                            }
                            return Err(StateError::MissingUtxo);
                        },
                    }
                },
            }
            i = i + 1;
        }
        assert(records_view(logs@).subrange(0, i as int) =~= records_view(logs@));
        Ok(())
    }
}

proof fn lemma_apply_err_extends(s: Seq<UtxoV>, p: PtrV, rs: Seq<RecordV>, n: int)
    requires
        0 <= n <= rs.len(),
        apply_records(s, p, rs.subrange(0, n)) is Err,
    ensures
        apply_records(s, p, rs) == apply_records(s, p, rs.subrange(0, n)),
    decreases rs.len() - n,
{
    if n < rs.len() {
        assert(rs.subrange(0, n + 1).drop_last() =~= rs.subrange(0, n));
        lemma_apply_err_extends(s, p, rs, n + 1);
    } else {
        assert(rs.subrange(0, n) =~= rs);
    }
}

proof fn lemma_run_utxos_err_extends(
    s: Seq<UtxoV>,
    p: PtrV,
    l: LookupV,
    items: Seq<(PtrV, UtxoV)>,
    n: int,
)
    requires
        0 <= n <= items.len(),
        run_utxos(s, p, l, items.subrange(0, n)) is Err,
    ensures
        run_utxos(s, p, l, items) == run_utxos(s, p, l, items.subrange(0, n)),
    decreases items.len() - n,
{
    if n < items.len() {
        assert(items.subrange(0, n + 1).drop_last() =~= items.subrange(0, n));
        lemma_run_utxos_err_extends(s, p, l, items, n + 1);
    } else {
        assert(items.subrange(0, n) =~= items);
    }
}

} // verus!
