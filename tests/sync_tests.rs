use wallet_sync::codec::{decode_log, deserialize, serialize, DecodeError};
use wallet_sync::date::BlockDate;
use wallet_sync::display::{display_utxo, dump_utxo};
use wallet_sync::lock::{LockError, LogLock};
use wallet_sync::lookup::AddressLookup;
use wallet_sync::state::{State, StateError};
use wallet_sync::sync::{Synchronizer, Transaction, TxOut};
use wallet_sync::types::{LogRecord, StatePtr, TxIn, UTxO};
use wallet_sync::wallet::{
    display_wallet_state_logs, update_wallet_state_with_logs, update_wallet_state_with_utxos,
    RecoveryError,
};

const ADDR_A: u8 = 0xA;
const ADDR_B: u8 = 0xB;

fn ptr(hash: u8, epoch: u64, slot: u16) -> StatePtr {
    StatePtr { latest_known_hash: vec![hash; 4], latest_addr: Some(BlockDate::Normal(epoch, slot)) }
}

fn id_of(index: u64) -> Vec<u8> {
    index.to_le_bytes().to_vec()
}

fn wallet_state() -> State {
    State::new(StatePtr::genesis(), AddressLookup::new_sequential(vec![vec![ADDR_A]], 5))
}

fn credit_a(id: u8, value: u64) -> Transaction {
    Transaction { id: vec![id, id], inputs: vec![], outputs: vec![TxOut { address: vec![ADDR_A], value }] }
}

fn spend_to_b(id: u8, spent: u8, value: u64) -> Transaction {
    Transaction {
        id: vec![id, id],
        inputs: vec![TxIn { id: vec![spent, spent], index: 0 }],
        outputs: vec![TxOut { address: vec![ADDR_B], value }],
    }
}

fn received_entry(id: u8, value: u64) -> UTxO {
    UTxO { transaction_id: vec![id, id], index_in_transaction: 0, credited_address: id_of(0), credited_value: value }
}

#[test]
fn two_blocks_same_epoch_receive_then_spend() {
    let mut state = wallet_state();
    let mut sync = Synchronizer::new(state.ptr());
    let txs = vec![(ptr(1, 0, 1), credit_a(1, 100)), (ptr(2, 0, 2), spend_to_b(2, 1, 100))];
    let records = update_wallet_state_with_utxos(&mut sync, &mut state, &txs).unwrap();
    assert!(state.utxos.is_empty());
    assert_eq!(
        records,
        vec![
            LogRecord::ReceivedFund(ptr(1, 0, 1), received_entry(1, 100)),
            LogRecord::SpentFund(ptr(2, 0, 2), received_entry(1, 100)),
        ]
    );
    assert_eq!(state.ptr, ptr(2, 0, 2));
}

#[test]
fn two_blocks_across_epochs_write_one_checkpoint() {
    let mut state = wallet_state();
    let mut sync = Synchronizer::new(state.ptr());
    let txs = vec![(ptr(1, 0, 1), credit_a(1, 100)), (ptr(2, 1, 0), spend_to_b(2, 1, 100))];
    let records = update_wallet_state_with_utxos(&mut sync, &mut state, &txs).unwrap();
    assert!(state.utxos.is_empty());
    assert_eq!(
        records,
        vec![
            LogRecord::ReceivedFund(ptr(1, 0, 1), received_entry(1, 100)),
            LogRecord::Checkpoint(ptr(2, 1, 0)),
            LogRecord::SpentFund(ptr(2, 1, 0), received_entry(1, 100)),
        ]
    );
    assert_eq!(sync.last_date, BlockDate::Normal(1, 0));
}

#[test]
fn replay_rebuilds_live_set_and_cursor() {
    let mut live = wallet_state();
    let mut sync = Synchronizer::new(live.ptr());
    let txs = vec![
        (ptr(1, 0, 1), credit_a(1, 100)),
        (ptr(2, 1, 3), credit_a(2, 7)),
        (ptr(3, 2, 0), spend_to_b(3, 1, 100)),
        (ptr(4, 2, 1), spend_to_b(4, 9, 5)),
    ];
    let records = update_wallet_state_with_utxos(&mut sync, &mut live, &txs).unwrap();
    let mut replayed = wallet_state();
    replayed.update_with_logs(&records).unwrap();
    assert_eq!(replayed.utxos, live.utxos);
    assert_eq!(replayed.ptr, live.ptr);
    assert_eq!(live.utxos, vec![received_entry(2, 7)]);
}

#[test]
fn recovery_from_log_bytes() {
    let mut live = wallet_state();
    let mut sync = Synchronizer::new(live.ptr());
    let txs = vec![(ptr(1, 0, 1), credit_a(1, 100)), (ptr(2, 1, 0), spend_to_b(2, 1, 100))];
    let records = update_wallet_state_with_utxos(&mut sync, &mut live, &txs).unwrap();
    let mut bytes: Vec<u8> = Vec::new();
    for r in &records {
        bytes.extend(serialize(r));
    }
    let mut fresh = wallet_state();
    update_wallet_state_with_logs(&mut fresh, &bytes).unwrap();
    assert!(fresh.utxos.is_empty());
    assert_eq!(fresh.ptr, ptr(2, 1, 0));

    let first = serialize(&records[0]);
    let mut partial = wallet_state();
    update_wallet_state_with_logs(&mut partial, &first).unwrap();
    assert_eq!(partial.utxos, vec![received_entry(1, 100)]);
    assert_eq!(partial.ptr, ptr(1, 0, 1));
}

#[test]
fn recovery_rejects_corrupt_log() {
    let rec = LogRecord::Checkpoint(ptr(1, 0, 1));
    let mut bytes = serialize(&rec);
    bytes.pop();
    let mut state = wallet_state();
    assert_eq!(
        update_wallet_state_with_logs(&mut state, &bytes),
        Err(RecoveryError::Decode(DecodeError::Malformed))
    );
    assert!(state.utxos.is_empty());
}

#[test]
fn identities_stay_unique() {
    let mut state = wallet_state();
    let mut sync = Synchronizer::new(state.ptr());
    let p = ptr(1, 0, 1);
    assert!(sync.process_transaction(&mut state, &p, &credit_a(1, 5)).is_ok());
    assert_eq!(
        sync.process_transaction(&mut state, &p, &credit_a(1, 5)),
        Err(StateError::DuplicateUtxo)
    );
    assert_eq!(state.utxos.len(), 1);

    let mut fresh = wallet_state();
    let twice = vec![
        LogRecord::ReceivedFund(p.clone(), received_entry(1, 5)),
        LogRecord::ReceivedFund(p.clone(), received_entry(1, 5)),
    ];
    assert_eq!(fresh.update_with_logs(&twice), Err(StateError::DuplicateUtxo));
}

#[test]
fn replay_of_unknown_spend_is_a_breach() {
    let mut state = wallet_state();
    let logs = vec![LogRecord::SpentFund(ptr(1, 0, 1), received_entry(9, 1))];
    assert_eq!(state.update_with_logs(&logs), Err(StateError::MissingUtxo));
}

#[test]
fn conservation_of_values() {
    let mut state = wallet_state();
    let mut sync = Synchronizer::new(state.ptr());
    let txs = vec![
        (ptr(1, 0, 1), credit_a(1, 100)),
        (ptr(2, 0, 2), credit_a(2, 40)),
        (ptr(3, 0, 3), credit_a(3, 0)),
        (ptr(4, 1, 1), spend_to_b(4, 2, 40)),
    ];
    let records = update_wallet_state_with_utxos(&mut sync, &mut state, &txs).unwrap();
    let mut received: u64 = 0;
    let mut spent: u64 = 0;
    for r in &records {
        match r {
            LogRecord::ReceivedFund(_, u) => received += u.credited_value,
            LogRecord::SpentFund(_, u) => spent += u.credited_value,
            LogRecord::Checkpoint(_) => {}
        }
    }
    let live: u64 = state.utxos.iter().map(|u| u.credited_value).sum();
    assert_eq!(received - spent, live);
    assert_eq!(live, 100);
}

#[test]
fn checkpoint_dates_do_not_decrease() {
    let mut state = wallet_state();
    let mut sync = Synchronizer::new(state.ptr());
    let txs = vec![
        (ptr(1, 0, 5), credit_a(1, 1)),
        (ptr(2, 1, 0), credit_a(2, 1)),
        (ptr(3, 1, 9), credit_a(3, 1)),
        (StatePtr { latest_known_hash: vec![4; 4], latest_addr: Some(BlockDate::Genesis(3)) }, credit_a(4, 1)),
        (ptr(5, 3, 2), credit_a(5, 1)),
    ];
    let records = update_wallet_state_with_utxos(&mut sync, &mut state, &txs).unwrap();
    let dates: Vec<BlockDate> = records
        .iter()
        .filter_map(|r| match r {
            LogRecord::Checkpoint(p) => Some(p.latest_block_date()),
            _ => None,
        })
        .collect();
    assert_eq!(dates, vec![BlockDate::Normal(1, 0), BlockDate::Genesis(3)]);
    for w in dates.windows(2) {
        assert!(w[0].le(&w[1]));
    }
}

#[test]
fn second_lock_attempt_fails() {
    let mut lock = LogLock::new(None);
    assert_eq!(lock.acquire(10), Ok(()));
    assert_eq!(lock.acquire(11), Err(LockError::AlreadyLocked(10)));
    assert_eq!(lock.acquire(10), Err(LockError::AlreadyLocked(10)));
    assert!(!lock.release(11));
    assert_eq!(lock.holder, Some(10));
    assert!(lock.release(10));
    assert_eq!(lock.acquire(11), Ok(()));
}

fn round_trip(r: LogRecord) {
    let bytes = serialize(&r);
    assert_eq!(deserialize(&bytes), Ok(r));
}

#[test]
fn round_trip_boundary_values() {
    let low = UTxO { transaction_id: vec![], index_in_transaction: 0, credited_address: vec![], credited_value: 0 };
    let high = UTxO {
        transaction_id: vec![0xff; 32],
        index_in_transaction: u32::MAX,
        credited_address: vec![0xff; 8],
        credited_value: u64::MAX,
    };
    let top = StatePtr { latest_known_hash: vec![0xff; 32], latest_addr: Some(BlockDate::Normal(u64::MAX, u16::MAX)) };
    let gen = StatePtr { latest_known_hash: vec![0; 32], latest_addr: Some(BlockDate::Genesis(0)) };
    for p in [StatePtr::genesis(), top, gen] {
        round_trip(LogRecord::Checkpoint(p.clone()));
        round_trip(LogRecord::ReceivedFund(p.clone(), low.clone()));
        round_trip(LogRecord::SpentFund(p.clone(), high.clone()));
        round_trip(LogRecord::ReceivedFund(p.clone(), high.clone()));
        round_trip(LogRecord::SpentFund(p.clone(), low.clone()));
    }
}

#[test]
fn checkpoint_frame_bytes() {
    let bytes = serialize(&LogRecord::Checkpoint(StatePtr::genesis()));
    assert_eq!(bytes, vec![10, 0, 0, 0, 0, 0, 0, 0, 0, 0, 0, 0, 0, 0, 0, 0, 0, 0]);
}

#[test]
fn log_of_several_frames() {
    let records = vec![
        LogRecord::Checkpoint(ptr(1, 0, 1)),
        LogRecord::ReceivedFund(ptr(2, 0, 2), received_entry(3, 4)),
        LogRecord::SpentFund(ptr(5, 1, 0), received_entry(3, 4)),
    ];
    let mut bytes: Vec<u8> = Vec::new();
    for r in &records {
        bytes.extend(serialize(r));
    }
    assert_eq!(decode_log(&bytes), Ok(records));
    assert_eq!(decode_log(&vec![]), Ok(vec![]));
    bytes.push(0);
    assert_eq!(decode_log(&bytes), Err(DecodeError::Malformed));
}

#[test]
fn deserialize_rejects_bad_frames() {
    let mut bytes = serialize(&LogRecord::Checkpoint(ptr(1, 0, 1)));
    bytes.push(7);
    assert_eq!(deserialize(&bytes), Err(DecodeError::Malformed));
    let mut tagged = serialize(&LogRecord::Checkpoint(ptr(1, 0, 1)));
    tagged[8] = 3;
    assert_eq!(deserialize(&tagged), Err(DecodeError::Malformed));
    assert_eq!(deserialize(&vec![1, 2, 3]), Err(DecodeError::Malformed));
}

#[test]
fn sequential_window_slides_on_hit() {
    let addrs = vec![vec![1], vec![2], vec![3], vec![4]];
    let mut l = AddressLookup::new_sequential(addrs, 2);
    assert_eq!(l.lookup(&vec![3]), None);
    assert_eq!(l.lookup(&vec![2]), Some(id_of(1)));
    assert_eq!(l.lookup(&vec![3]), Some(id_of(2)));
    assert_eq!(l.lookup(&vec![4]), Some(id_of(3)));
    assert_eq!(l.lookup(&vec![9]), None);
}

#[test]
fn random_index_lookup_uses_paths() {
    assert!(AddressLookup::new_random_index(vec![vec![1]], vec![]).is_none());
    let mut l = AddressLookup::new_random_index(vec![vec![1], vec![2]], vec![vec![0, 7], vec![0, 9]]).unwrap();
    assert_eq!(l.lookup(&vec![2]), Some(vec![0, 9]));
    assert_eq!(l.lookup(&vec![1]), Some(vec![0, 7]));
    assert_eq!(l.lookup(&vec![3]), None);
}

#[test]
fn unowned_inputs_and_outputs_are_skipped() {
    let mut state = wallet_state();
    let before = state.ptr.clone();
    let ins = vec![(ptr(1, 0, 1), TxIn { id: vec![8], index: 0 })];
    assert!(state.forward_with_txins(&ins).is_empty());
    let outs = vec![(ptr(1, 0, 1), UTxO { transaction_id: vec![8], index_in_transaction: 0, credited_address: vec![ADDR_B], credited_value: 3 })];
    assert_eq!(state.forward_with_utxos(&outs), Ok(vec![]));
    assert_eq!(state.ptr, before);
}

#[test]
fn summary_line_of_credit_and_debit() {
    let p = ptr(1, 3, 7);
    let u = UTxO { transaction_id: vec![0xab, 0x01], index_in_transaction: 5, credited_address: vec![], credited_value: 100 };
    assert_eq!(display_utxo(&p, &u, false), "3.7      |ab01.005|           100|              \n");
    assert_eq!(display_utxo(&p, &u, true), "3.7      |ab01.005|              |           100\n");
    let g = StatePtr { latest_known_hash: vec![], latest_addr: Some(BlockDate::Genesis(12)) };
    let big = UTxO { transaction_id: vec![], index_in_transaction: 1234, credited_address: vec![], credited_value: u64::MAX };
    assert_eq!(display_utxo(&g, &big, false), "12.GENESIS|.1234|18446744073709551615|              \n");
}

#[test]
fn dump_of_credit_and_debit() {
    let p = ptr(1, 3, 7);
    let u = UTxO { transaction_id: vec![0xab, 0x01], index_in_transaction: 5, credited_address: vec![], credited_value: 100 };
    assert_eq!(dump_utxo(&p, &u, false), "credit ab01.5\nDate 3.7\nBlock 01010101\nValue 100\n\n");
    assert_eq!(dump_utxo(&StatePtr::genesis(), &u, true), "debit ab01.5\nDate 0.GENESIS\nBlock \nValue 100\n\n");
}

#[test]
fn whole_log_text() {
    let p = ptr(1, 3, 7);
    let u = UTxO { transaction_id: vec![0xab, 0x01], index_in_transaction: 5, credited_address: vec![], credited_value: 100 };
    let logs = vec![LogRecord::Checkpoint(p.clone()), LogRecord::SpentFund(p.clone(), u.clone())];
    assert_eq!(
        display_wallet_state_logs(&logs, false),
        "checkpoint 3.7 (01010101)\n\ndebit ab01.5\nDate 3.7\nBlock 01010101\nValue 100\n\n"
    );
    assert_eq!(display_wallet_state_logs(&logs, true), "3.7      |ab01.005|              |           100\n");
}

#[test]
fn dates_order_by_epoch_then_slot() {
    assert!(BlockDate::Genesis(1).le(&BlockDate::Normal(1, 0)));
    assert!(!BlockDate::Normal(1, 0).le(&BlockDate::Genesis(1)));
    assert!(BlockDate::Normal(0, 9).le(&BlockDate::Genesis(1)));
    assert_eq!(BlockDate::Normal(4, 2).get_epochid(), 4);
}
