//! What holds of synchronisation over whole runs of transactions.
use vstd::prelude::*;
use crate::date::BlockDate;
use crate::lookup::LookupV;
use crate::state::{
    apply_record, apply_records, index_of, run_txins, run_utxos, step_txin, step_utxo,
    total, unique_keys, StateError, lemma_unique_push, lemma_unique_remove,
};
use crate::sync::{checkpoint_due, sync_tx, tx_inputs, tx_outputs, Transaction};
use crate::types::{PtrV, RecordV, UtxoV};

verus! {

/// Transactions in order, each at its cursor; the first breach stops the run.
pub open spec fn sync_txs(
    last: BlockDate,
    s: Seq<UtxoV>,
    p: PtrV,
    l: LookupV,
    txs: Seq<(PtrV, Transaction)>,
) -> Result<(BlockDate, Seq<UtxoV>, PtrV, LookupV, Seq<RecordV>), StateError>
    decreases txs.len(),
{
    if txs.len() == 0 {
        Ok((last, s, p, l, Seq::empty()))
    } else {
        match sync_txs(last, s, p, l, txs.drop_last()) {
            Ok((d1, s1, cur1, l1, rs)) => match sync_tx(d1, s1, cur1, l1, txs.last().0, txs.last().1) {
                Ok((d2, s2, cur2, l2, r)) => Ok((d2, s2, cur2, l2, rs + r)),
                Err(e) => Err(e),
            },
            Err(e) => Err(e),
        }
    }
}

/// The values received in a sequence of records.
pub open spec fn received_sum(rs: Seq<RecordV>) -> int
    decreases rs.len(),
{
    if rs.len() == 0 {
        0
    } else {
        received_sum(rs.drop_last()) + match rs.last() {
            RecordV::Received(_, u) => u.value as int,
            _ => 0,
        }
    }
}

/// The values spent in a sequence of records.
pub open spec fn spent_sum(rs: Seq<RecordV>) -> int
    decreases rs.len(),
{
    if rs.len() == 0 {
        0
    } else {
        spent_sum(rs.drop_last()) + match rs.last() {
            RecordV::Spent(_, u) => u.value as int,
            _ => 0,
        }
    }
}

/// The dates of the checkpoints among the records, in order.
pub open spec fn checkpoint_dates(rs: Seq<RecordV>) -> Seq<BlockDate>
    decreases rs.len(),
{
    if rs.len() == 0 {
        Seq::empty()
    } else {
        match rs.last() {
            RecordV::Checkpoint(q) => checkpoint_dates(rs.drop_last()).push(q.block_date()),
            _ => checkpoint_dates(rs.drop_last()),
        }
    }
}

pub open spec fn dates_sorted(ds: Seq<BlockDate>) -> bool {
    forall|i: int, j: int| 0 <= i < j < ds.len() ==> ds[i].spec_le(ds[j])
}

/// Every transaction's block has a date, and the dates never go back, from `last` on.
pub open spec fn in_chain_order(last: BlockDate, txs: Seq<(PtrV, Transaction)>) -> bool {
    &&& forall|i: int| 0 <= i < txs.len() ==> (#[trigger] txs[i]).0.date is Some
    &&& forall|i: int|
        0 <= i < txs.len() ==> last.spec_le((#[trigger] txs[i]).0.date.unwrap())
    &&& forall|i: int, j: int|
        0 <= i < j < txs.len() ==> txs[i].0.date.unwrap().spec_le(txs[j].0.date.unwrap())
}

proof fn lemma_apply_concat(s: Seq<UtxoV>, p: PtrV, a: Seq<RecordV>, b: Seq<RecordV>)
    ensures
        apply_records(s, p, a + b) == match apply_records(s, p, a) {
            Ok((s1, cur1)) => apply_records(s1, cur1, b),
            Err(e) => Err(e),
        },
    decreases b.len(),
{
    if b.len() == 0 {
        assert(a + b =~= a);
    } else {
        assert((a + b).drop_last() =~= a + b.drop_last());
        lemma_apply_concat(s, p, a, b.drop_last());
    }
}

proof fn lemma_replay_txins(s: Seq<UtxoV>, p: PtrV, items: Seq<(PtrV, (Seq<u8>, u32))>)
    ensures
        apply_records(s, p, run_txins(s, p, items).2) == Ok::<_, StateError>(
            (run_txins(s, p, items).0, run_txins(s, p, items).1),
        ),
    decreases items.len(),
{
    if items.len() > 0 {
        let (s1, cur1, rs) = run_txins(s, p, items.drop_last());
        lemma_replay_txins(s, p, items.drop_last());
        let (s2, cur2, r) = step_txin(s1, cur1, items.last().0, items.last().1);
        lemma_apply_concat(s, p, rs, r);
        if r.len() == 1 {
            let k = items.last().1;
            let u = s1[index_of(s1, k)];
            assert(u.key() == k);
            assert(r.drop_last() =~= Seq::<RecordV>::empty());
            assert(apply_records(s1, cur1, r.drop_last()) == Ok::<_, StateError>((s1, cur1)));
            assert(apply_records(s1, cur1, r) == apply_record(s1, cur1, r.last()));
        }
    }
}

proof fn lemma_replay_utxos(s: Seq<UtxoV>, p: PtrV, l: LookupV, items: Seq<(PtrV, UtxoV)>)
    requires
        run_utxos(s, p, l, items) is Ok,
    ensures
        run_utxos(s, p, l, items) matches Ok((s1, cur1, _, rs)) && apply_records(s, p, rs) == Ok::<
            _,
            StateError,
        >((s1, cur1)),
    decreases items.len(),
{
    if items.len() > 0 {
        lemma_replay_utxos(s, p, l, items.drop_last());
        let (s1, cur1, l1, rs) = run_utxos(s, p, l, items.drop_last()).unwrap();
        let (s2, cur2, l2, r) = step_utxo(s1, cur1, l1, items.last().0, items.last().1).unwrap();
        lemma_apply_concat(s, p, rs, r);
        if r.len() == 1 {
            assert(r.drop_last() =~= Seq::<RecordV>::empty());
            assert(apply_records(s1, cur1, r.drop_last()) == Ok::<_, StateError>((s1, cur1)));
            assert(apply_records(s1, cur1, r) == apply_record(s1, cur1, r.last()));
        }
    }
}

/// Replaying the records of a run of transactions, from the state the run
/// started in, gives the live set and the cursor that the run left.
pub proof fn replay_equivalence(
    last: BlockDate,
    s: Seq<UtxoV>,
    p: PtrV,
    l: LookupV,
    txs: Seq<(PtrV, Transaction)>,
)
    requires
        sync_txs(last, s, p, l, txs) is Ok,
    ensures
        sync_txs(last, s, p, l, txs) matches Ok((_, s1, cur1, _, rs)) && apply_records(s, p, rs)
            == Ok::<_, StateError>((s1, cur1)),
    decreases txs.len(),
{
    if txs.len() > 0 {
        replay_equivalence(last, s, p, l, txs.drop_last());
        let (d1, s1, cur1, l1, rs) = sync_txs(last, s, p, l, txs.drop_last()).unwrap();
        let (q, tx) = txs.last();
        let (_, s2, cur2, _, r) = sync_tx(d1, s1, cur1, l1, q, tx).unwrap();
        lemma_apply_concat(s, p, rs, r);
        lemma_replay_tx(d1, s1, cur1, l1, q, tx);
    }
}

proof fn lemma_replay_tx(d: BlockDate, s: Seq<UtxoV>, p: PtrV, l: LookupV, q: PtrV, tx: Transaction)
    requires
        sync_tx(d, s, p, l, q, tx) is Ok,
    ensures
        sync_tx(d, s, p, l, q, tx) matches Ok((_, s1, cur1, _, rs)) && apply_records(s, p, rs)
            == Ok::<_, StateError>((s1, cur1)),
{
    let (cur0, cp) = if crate::sync::checkpoint_due(d, q) {
        (q, seq![RecordV::Checkpoint(q)])
    } else {
        (p, Seq::<RecordV>::empty())
    };
    let (s1, cur1, r1) = run_txins(s, cur0, tx_inputs(q, tx));
    let (s2, cur2, l2, r2) = run_utxos(s1, cur1, l, tx_outputs(q, tx)).unwrap();
    if cp.len() == 1 {
        assert(cp.drop_last() =~= Seq::<RecordV>::empty());
        assert(apply_records(s, p, cp.drop_last()) == Ok::<_, StateError>((s, p)));
    }
    assert(apply_records(s, p, cp) == Ok::<_, StateError>((s, cur0)));
    lemma_replay_txins(s, cur0, tx_inputs(q, tx));
    lemma_replay_utxos(s1, cur1, l, tx_outputs(q, tx));
    lemma_apply_concat(s, p, cp, r1);
    lemma_apply_concat(s, p, cp + r1, r2);
}

/// Replaying records never lets two live entries share an identity.
pub proof fn replay_keeps_identities_unique(s: Seq<UtxoV>, p: PtrV, rs: Seq<RecordV>)
    requires
        unique_keys(s),
        apply_records(s, p, rs) is Ok,
    ensures
        apply_records(s, p, rs) matches Ok((s1, _)) && unique_keys(s1),
    decreases rs.len(),
{
    if rs.len() > 0 {
        replay_keeps_identities_unique(s, p, rs.drop_last());
        let (s1, cur1) = apply_records(s, p, rs.drop_last()).unwrap();
        match rs.last() {
            RecordV::Received(_, u) => {
                lemma_unique_push(s1, u);
            },
            RecordV::Spent(_, u) => {
                let i = index_of(s1, u.key());
                lemma_unique_remove(s1, i);
            },
            _ => {},
        }
    }
}

proof fn lemma_total_remove(s: Seq<UtxoV>, i: int)
    requires
        0 <= i < s.len(),
    ensures
        total(s.remove(i)) == total(s) - s[i].value,
    decreases s.len(),
{
    if i == s.len() - 1 {
        assert(s.remove(i) =~= s.drop_last());
    } else {
        assert(s.remove(i).drop_last() =~= s.drop_last().remove(i));
        lemma_total_remove(s.drop_last(), i);
    }
}

proof fn lemma_sums_concat(a: Seq<RecordV>, b: Seq<RecordV>)
    ensures
        received_sum(a + b) == received_sum(a) + received_sum(b),
        spent_sum(a + b) == spent_sum(a) + spent_sum(b),
        checkpoint_dates(a + b) == checkpoint_dates(a) + checkpoint_dates(b),
    decreases b.len(),
{
    if b.len() == 0 {
        assert(a + b =~= a);
        assert(checkpoint_dates(a) + checkpoint_dates(b) =~= checkpoint_dates(a));
    } else {
        assert((a + b).drop_last() =~= a + b.drop_last());
        lemma_sums_concat(a, b.drop_last());
        assert(checkpoint_dates(a) + checkpoint_dates(b.drop_last()).push(b.last()->Checkpoint_0.block_date())
            =~= (checkpoint_dates(a) + checkpoint_dates(b.drop_last())).push(b.last()->Checkpoint_0.block_date()));
    }
}

proof fn lemma_one_record(r: RecordV)
    ensures
        received_sum(seq![r]) == match r {
            RecordV::Received(_, u) => u.value as int,
            _ => 0,
        },
        spent_sum(seq![r]) == match r {
            RecordV::Spent(_, u) => u.value as int,
            _ => 0,
        },
        checkpoint_dates(seq![r]) == match r {
            RecordV::Checkpoint(q) => seq![q.block_date()],
            _ => Seq::<BlockDate>::empty(),
        },
{
    assert(seq![r].drop_last() =~= Seq::<RecordV>::empty());
    assert(received_sum(seq![r].drop_last()) == 0);
    assert(spent_sum(seq![r].drop_last()) == 0);
    assert(seq![r].last() == r);
    assert(checkpoint_dates(seq![r].drop_last()) == Seq::<BlockDate>::empty());
    assert(Seq::<BlockDate>::empty().push(r->Checkpoint_0.block_date()) =~= seq![r->Checkpoint_0.block_date()]);
}

proof fn lemma_conserve_txins(s: Seq<UtxoV>, p: PtrV, items: Seq<(PtrV, (Seq<u8>, u32))>)
    ensures
        total(run_txins(s, p, items).0) + spent_sum(run_txins(s, p, items).2) == total(s)
            + received_sum(run_txins(s, p, items).2),
        received_sum(run_txins(s, p, items).2) == 0,
        checkpoint_dates(run_txins(s, p, items).2) == Seq::<BlockDate>::empty(),
    decreases items.len(),
{
    if items.len() > 0 {
        let (s1, cur1, rs) = run_txins(s, p, items.drop_last());
        lemma_conserve_txins(s, p, items.drop_last());
        let (s2, cur2, r) = step_txin(s1, cur1, items.last().0, items.last().1);
        lemma_sums_concat(rs, r);
        if r.len() == 1 {
            let k = items.last().1;
            lemma_total_remove(s1, index_of(s1, k));
            lemma_one_record(r[0]);
            assert(r =~= seq![r[0]]);
        } else {
            assert(checkpoint_dates(r) =~= Seq::<BlockDate>::empty());
        }
        assert(checkpoint_dates(rs) + checkpoint_dates(r) =~= Seq::<BlockDate>::empty());
    }
}

proof fn lemma_conserve_utxos(s: Seq<UtxoV>, p: PtrV, l: LookupV, items: Seq<(PtrV, UtxoV)>)
    requires
        run_utxos(s, p, l, items) is Ok,
    ensures
        run_utxos(s, p, l, items) matches Ok((s1, _, _, rs)) && total(s1) + spent_sum(rs) == total(
            s,
        ) + received_sum(rs) && checkpoint_dates(rs) == Seq::<BlockDate>::empty(),
    decreases items.len(),
{
    if items.len() > 0 {
        lemma_conserve_utxos(s, p, l, items.drop_last());
        let (s1, cur1, l1, rs) = run_utxos(s, p, l, items.drop_last()).unwrap();
        let (s2, cur2, l2, r) = step_utxo(s1, cur1, l1, items.last().0, items.last().1).unwrap();
        lemma_sums_concat(rs, r);
        if r.len() == 1 {
            lemma_one_record(r[0]);
            assert(r =~= seq![r[0]]);
            assert(s2.drop_last() =~= s1);
        } else {
            assert(checkpoint_dates(r) =~= Seq::<BlockDate>::empty());
        }
        assert(checkpoint_dates(rs) + checkpoint_dates(r) =~= Seq::<BlockDate>::empty());
    }
}

proof fn lemma_conserve_tx(d: BlockDate, s: Seq<UtxoV>, p: PtrV, l: LookupV, q: PtrV, tx: Transaction)
    requires
        sync_tx(d, s, p, l, q, tx) is Ok,
    ensures
        sync_tx(d, s, p, l, q, tx) matches Ok((_, s1, _, _, rs)) && total(s1) + spent_sum(rs)
            == total(s) + received_sum(rs) && checkpoint_dates(rs) == (if checkpoint_due(d, q) {
            seq![q.block_date()]
        } else {
            Seq::<BlockDate>::empty()
        }),
{
    let (cur0, cp) = if checkpoint_due(d, q) {
        (q, seq![RecordV::Checkpoint(q)])
    } else {
        (p, Seq::<RecordV>::empty())
    };
    let (s1, cur1, r1) = run_txins(s, cur0, tx_inputs(q, tx));
    lemma_conserve_txins(s, cur0, tx_inputs(q, tx));
    lemma_conserve_utxos(s1, cur1, l, tx_outputs(q, tx));
    let (s2, cur2, l2, r2) = run_utxos(s1, cur1, l, tx_outputs(q, tx)).unwrap();
    lemma_one_record(RecordV::Checkpoint(q));
    if !checkpoint_due(d, q) {
        assert(checkpoint_dates(cp) =~= Seq::<BlockDate>::empty());
    }
    lemma_sums_concat(cp, r1);
    lemma_sums_concat(cp + r1, r2);
    assert(checkpoint_dates(cp) + checkpoint_dates(r1) + checkpoint_dates(r2) =~= checkpoint_dates(cp));
}

/// Over a run of transactions, what the live set holds grows by what was
/// received and shrinks by what was spent.
pub proof fn conservation(
    last: BlockDate,
    s: Seq<UtxoV>,
    p: PtrV,
    l: LookupV,
    txs: Seq<(PtrV, Transaction)>,
)
    requires
        sync_txs(last, s, p, l, txs) is Ok,
    ensures
        sync_txs(last, s, p, l, txs) matches Ok((_, s1, _, _, rs)) && total(s1) + spent_sum(rs)
            == total(s) + received_sum(rs),
    decreases txs.len(),
{
    if txs.len() > 0 {
        conservation(last, s, p, l, txs.drop_last());
        let (d1, s1, cur1, l1, rs) = sync_txs(last, s, p, l, txs.drop_last()).unwrap();
        let (q, tx) = txs.last();
        let (_, s2, _, _, r) = sync_tx(d1, s1, cur1, l1, q, tx).unwrap();
        lemma_conserve_tx(d1, s1, cur1, l1, q, tx);
        lemma_sums_concat(rs, r);
    }
}

/// When the blocks come in chain order, the dates of successive checkpoints
/// never go back.
pub proof fn checkpoints_monotonic(
    last: BlockDate,
    s: Seq<UtxoV>,
    p: PtrV,
    l: LookupV,
    txs: Seq<(PtrV, Transaction)>,
)
    requires
        sync_txs(last, s, p, l, txs) is Ok,
        in_chain_order(last, txs),
    ensures
        sync_txs(last, s, p, l, txs) matches Ok((d, _, _, _, rs)) && dates_sorted(
            checkpoint_dates(rs),
        ) && (forall|i: int|
            0 <= i < checkpoint_dates(rs).len() ==> (#[trigger] checkpoint_dates(rs)[i]).spec_le(d))
            && (txs.len() == 0 ==> d == last) && (txs.len() > 0 ==> d == txs.last().0.date.unwrap()),
    decreases txs.len(),
{
    if txs.len() > 0 {
        let front = txs.drop_last();
        assert(in_chain_order(last, front)) by {
            assert forall|i: int| 0 <= i < front.len() implies (#[trigger] front[i]).0.date is Some by {
                assert(front[i] == txs[i]);
            }
            assert forall|i: int| 0 <= i < front.len() implies last.spec_le((#[trigger] front[i]).0.date.unwrap()) by {
                assert(front[i] == txs[i]);
            }
            assert forall|i: int, j: int| 0 <= i < j < front.len() implies front[i].0.date.unwrap().spec_le(front[j].0.date.unwrap()) by {
                assert(front[i] == txs[i] && front[j] == txs[j]);
            }
        }
        checkpoints_monotonic(last, s, p, l, front);
        let (d1, s1, cur1, l1, rs) = sync_txs(last, s, p, l, front).unwrap();
        let (q, tx) = txs.last();
        let (d2, _, _, _, r) = sync_tx(d1, s1, cur1, l1, q, tx).unwrap();
        lemma_conserve_tx(d1, s1, cur1, l1, q, tx);
        lemma_sums_concat(rs, r);
        let n = txs.len() - 1;
        assert(txs[n] == txs.last());
        assert(txs[n].0.date is Some);
        assert(last.spec_le(txs[n].0.date.unwrap()));
        if n > 0 {
            assert(front.last() == txs[n - 1]);
            assert(txs[n - 1].0.date.unwrap().spec_le(txs[n].0.date.unwrap()));
        }
        assert(d1.spec_le(q.date.unwrap()));
        assert(q.block_date() == q.date.unwrap());
    }
}

} // verus!
