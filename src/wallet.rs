//! Wallet-level operations: a run of transactions, recovery from the log's
//! bytes, and the presentation of a whole log.
use vstd::prelude::*;
use crate::codec::{decode_log, parse_log, DecodeError};
use crate::display::{chars_to_string, string_to_chars, display_utxo, dump_utxo, utxo_dump, utxo_line};
use crate::laws::sync_txs;
use crate::state::{apply_records, State, StateError};
use crate::sync::{Synchronizer, Transaction};
use crate::text::{date_text, hex, push_chars, push_date, push_hex};
use crate::types::{LogRecord, RecordV, StatePtr, records_view};

verus! {

/// Why recovering a wallet from its log failed.
#[derive(Clone, Copy, Debug, PartialEq, Eq, Structural)]
pub enum RecoveryError {
    /// The log's bytes are corrupt.
    Decode(DecodeError),
    /// The records break the live set's invariant.
    State(StateError),
}

/// Every transaction fits the output index type.
pub open spec fn indexable(txs: Seq<(StatePtr, Transaction)>) -> bool {
    forall|i: int| 0 <= i < txs.len() ==> (#[trigger] txs[i]).1.outputs@.len() <= u32::MAX
}

pub open spec fn tx_items(txs: Seq<(StatePtr, Transaction)>) -> Seq<(crate::types::PtrV, Transaction)> {
    txs.map_values(|x: (StatePtr, Transaction)| (x.0@, x.1))
}

/// Processes transactions in chain order, each at its block's cursor, and
/// returns the records to append, in order.
pub fn update_wallet_state_with_utxos(
    sync: &mut Synchronizer,
    state: &mut State,
    txs: &Vec<(StatePtr, Transaction)>,
) -> (r: Result<Vec<LogRecord>, StateError>)
    requires
        old(state).wf(),
        indexable(txs@),
    ensures
        final(state).wf(),
        match sync_txs(
            old(sync).last_date,
            old(state).live(),
            old(state).ptr@,
            old(state).lookup@,
            tx_items(txs@),
        ) {
            Ok((d, s, p, l, rs)) => r matches Ok(v) && records_view(v@) == rs
                && final(sync).last_date == d && final(state).live() == s && final(state).ptr@
                == p && final(state).lookup@ == l,
            Err(e) => r == Err::<Vec<LogRecord>, StateError>(e),
        },
{
    let mut out: Vec<LogRecord> = Vec::new();
    let mut i: usize = 0;
    assert(records_view(out@) =~= Seq::<RecordV>::empty());
    while i < txs.len()
        invariant
            state.wf(),
            indexable(txs@),
            i <= txs@.len(),
            sync_txs(
                old(sync).last_date,
                old(state).live(),
                old(state).ptr@,
                old(state).lookup@,
                tx_items(txs@).subrange(0, i as int),
            ) == Ok::<_, StateError>(
                (sync.last_date, state.live(), state.ptr@, state.lookup@, records_view(out@)),
            ),
        decreases txs@.len() - i,
    {
        let ghost out0 = records_view(out@);
        assert(tx_items(txs@).subrange(0, i as int + 1).drop_last() =~= tx_items(txs@).subrange(
            0,
            i as int,
        ));
        assert(txs@[i as int].1.outputs@.len() <= u32::MAX);
        let (ptr, tx) = &txs[i];
        let mut recs = match sync.process_transaction(state, ptr, tx) {
            Ok(v) => v,
            Err(e) => {
                proof {
                    lemma_sync_err_extends(
                        old(sync).last_date,
                        old(state).live(),
                        old(state).ptr@,
                        old(state).lookup@,
                        tx_items(txs@),
                        i as int + 1,
                    );
                }
                return Err(e);
            },
        };
        let ghost r1 = records_view(recs@);
        out.append(&mut recs);
        assert(records_view(out@) =~= out0 + r1);
        i = i + 1;
    }
    assert(tx_items(txs@).subrange(0, i as int) =~= tx_items(txs@));
    Ok(out)
}

proof fn lemma_sync_err_extends(
    last: crate::date::BlockDate,
    s: Seq<crate::types::UtxoV>,
    p: crate::types::PtrV,
    l: crate::lookup::LookupV,
    txs: Seq<(crate::types::PtrV, Transaction)>,
    n: int,
)
    requires
        0 <= n <= txs.len(),
        sync_txs(last, s, p, l, txs.subrange(0, n)) is Err,
    ensures
        sync_txs(last, s, p, l, txs) == sync_txs(last, s, p, l, txs.subrange(0, n)),
    decreases txs.len() - n,
{
    if n < txs.len() {
        assert(txs.subrange(0, n + 1).drop_last() =~= txs.subrange(0, n));
        lemma_sync_err_extends(last, s, p, l, txs, n + 1);
    } else {
        assert(txs.subrange(0, n) =~= txs);
    }
}

/// Rebuilds the state from the bytes of its log.
pub fn update_wallet_state_with_logs(state: &mut State, log: &Vec<u8>) -> (r: Result<
    (),
    RecoveryError,
>)
    requires
        old(state).wf(),
    ensures
        final(state).wf(),
        match parse_log(log@) {
            None => r == Err::<(), RecoveryError>(RecoveryError::Decode(DecodeError::Malformed))
                && *final(state) == *old(state),
            Some(rs) => match apply_records(old(state).live(), old(state).ptr@, rs) {
                Ok((s, p)) => r is Ok && final(state).live() == s && final(state).ptr@ == p,
                Err(e) => r == Err::<(), RecoveryError>(RecoveryError::State(e)),
            },
        },
{
    match decode_log(log) {
        Ok(records) => match state.update_with_logs(&records) {
            Ok(()) => Ok(()),
            Err(e) => Err(RecoveryError::State(e)),
        },
        Err(e) => Err(RecoveryError::Decode(e)),
    }
}

/// The text of one record: a checkpoint line only in the dump form; an output
/// as a summary line (`pretty`) or a dump.
pub open spec fn record_text(r: RecordV, pretty: bool) -> Seq<char> {
    match r {
        RecordV::Checkpoint(p) => if pretty {
            Seq::empty()
        } else {
            seq!['c', 'h', 'e', 'c', 'k', 'p', 'o', 'i', 'n', 't', ' '] + date_text(p.block_date())
                + seq![' ', '('] + hex(p.hash) + seq![')', '\n', '\n']
        },
        RecordV::Received(p, u) => if pretty {
            utxo_line(p, u, false)
        } else {
            utxo_dump(p, u, false)
        },
        RecordV::Spent(p, u) => if pretty {
            utxo_line(p, u, true)
        } else {
            utxo_dump(p, u, true)
        },
    }
}

pub open spec fn logs_text(rs: Seq<RecordV>, pretty: bool) -> Seq<char>
    decreases rs.len(),
{
    if rs.len() == 0 {
        Seq::empty()
    } else {
        logs_text(rs.drop_last(), pretty) + record_text(rs.last(), pretty)
    }
}

/// The text of a whole log, oldest record first.
pub fn display_wallet_state_logs(logs: &Vec<LogRecord>, pretty: bool) -> (r: String)
    ensures
        r@ == logs_text(records_view(logs@), pretty),
{
    let mut out: Vec<char> = Vec::new();
    let mut i: usize = 0;
    while i < logs.len()
        invariant
            i <= logs@.len(),
            out@ == logs_text(records_view(logs@).subrange(0, i as int), pretty),
        decreases logs@.len() - i,
    {
        let ghost prev = out@;
        match &logs[i] {
            LogRecord::Checkpoint(p) => {
                if !pretty {
                    push_chars(&mut out, &['c', 'h', 'e', 'c', 'k', 'p', 'o', 'i', 'n', 't', ' ']);
                    push_date(&mut out, p.latest_block_date());
                    push_chars(&mut out, &[' ', '(']);
                    push_hex(&mut out, &p.latest_known_hash);
                    push_chars(&mut out, &[')', '\n', '\n']);
                }
            },
            LogRecord::ReceivedFund(p, u) => {
                let t = if pretty {
                    display_utxo(p, u, false)
                } else {
                    dump_utxo(p, u, false)
                };
                let mut c = string_to_chars(&t);
                out.append(&mut c);
            },
            LogRecord::SpentFund(p, u) => {
                let t = if pretty {
                    display_utxo(p, u, true)
                } else {
                    dump_utxo(p, u, true)
                };
                let mut c = string_to_chars(&t);
                out.append(&mut c);
            },
        }
        assert(records_view(logs@).subrange(0, i + 1).drop_last() =~= records_view(logs@).subrange(
            0,
            i as int,
        ));
        assert(out@ =~= prev + record_text(logs@[i as int]@, pretty));
        i = i + 1;
    }
    assert(records_view(logs@).subrange(0, i as int) =~= records_view(logs@));
    chars_to_string(&out)
}

} // verus!
