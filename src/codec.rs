//! The log's byte format. Each record is framed by its length, so a log is a
//! plain concatenation of frames and a reader knows where each one ends.
//!
//! Integers are little-endian; a byte string is its length (8 bytes) and its
//! bytes; an optional date is a tag byte (0 none, 1 genesis, 2 slot) and its
//! fields; a record is a tag byte (0 checkpoint, 1 received, 2 spent), the
//! cursor, and for the last two the output.
use vstd::prelude::*;
use vstd::bytes::{
    spec_u16_from_le_bytes, spec_u16_to_le_bytes, spec_u32_from_le_bytes, spec_u32_to_le_bytes,
    spec_u64_from_le_bytes, spec_u64_to_le_bytes, u16_from_le_bytes, u16_to_le_bytes,
    u32_from_le_bytes, u32_to_le_bytes, u64_from_le_bytes, u64_to_le_bytes,
    lemma_auto_spec_u16_to_from_le_bytes, lemma_auto_spec_u32_to_from_le_bytes,
    lemma_auto_spec_u64_to_from_le_bytes,
};
use vstd::slice::{slice_subrange, slice_to_vec};
use crate::date::BlockDate;
use crate::types::{copy_bytes, LogRecord, PtrV, RecordV, StatePtr, UTxO, UtxoV, records_view};

verus! {

/// A log whose bytes are not a sequence of well-formed frames.
#[derive(Clone, Copy, Debug, PartialEq, Eq, Structural)]
pub enum DecodeError {
    Malformed,
}

/// The first `n` bytes and the rest, when there are `n`.
pub open spec fn take(s: Seq<u8>, n: int) -> Option<(Seq<u8>, Seq<u8>)> {
    if 0 <= n <= s.len() {
        Some((s.subrange(0, n), s.subrange(n, s.len() as int)))
    } else {
        None
    }
}

pub open spec fn parse_u64(s: Seq<u8>) -> Option<(u64, Seq<u8>)> {
    match take(s, 8) {
        Some((a, r)) => Some((spec_u64_from_le_bytes(a), r)),
        None => None,
    }
}

pub open spec fn parse_u32(s: Seq<u8>) -> Option<(u32, Seq<u8>)> {
    match take(s, 4) {
        Some((a, r)) => Some((spec_u32_from_le_bytes(a), r)),
        None => None,
    }
}

pub open spec fn parse_u16(s: Seq<u8>) -> Option<(u16, Seq<u8>)> {
    match take(s, 2) {
        Some((a, r)) => Some((spec_u16_from_le_bytes(a), r)),
        None => None,
    }
}

pub open spec fn enc_bytes(b: Seq<u8>) -> Seq<u8> {
    spec_u64_to_le_bytes(b.len() as u64) + b
}

pub open spec fn parse_bytes(s: Seq<u8>) -> Option<(Seq<u8>, Seq<u8>)> {
    match parse_u64(s) {
        Some((n, r)) => take(r, n as int),
        None => None,
    }
}

pub open spec fn enc_date(d: Option<BlockDate>) -> Seq<u8> {
    match d {
        None => seq![0u8],
        Some(BlockDate::Genesis(e)) => seq![1u8] + spec_u64_to_le_bytes(e),
        Some(BlockDate::Normal(e, sl)) => seq![2u8] + spec_u64_to_le_bytes(e) + spec_u16_to_le_bytes(sl),
    }
}

pub open spec fn parse_date(s: Seq<u8>) -> Option<(Option<BlockDate>, Seq<u8>)> {
    if s.len() == 0 {
        None
    } else {
        let r = s.subrange(1, s.len() as int);
        if s[0] == 0 {
            Some((None, r))
        } else if s[0] == 1 {
            match parse_u64(r) {
                Some((e, r2)) => Some((Some(BlockDate::Genesis(e)), r2)),
                None => None,
            }
        } else if s[0] == 2 {
            match parse_u64(r) {
                Some((e, r2)) => match parse_u16(r2) {
                    Some((sl, r3)) => Some((Some(BlockDate::Normal(e, sl)), r3)),
                    None => None,
                },
                None => None,
            }
        } else {
            None
        }
    }
}

pub open spec fn enc_ptr(p: PtrV) -> Seq<u8> {
    enc_bytes(p.hash) + enc_date(p.date)
}

pub open spec fn parse_ptr(s: Seq<u8>) -> Option<(PtrV, Seq<u8>)> {
    match parse_bytes(s) {
        Some((h, r)) => match parse_date(r) {
            Some((d, r2)) => Some((PtrV { hash: h, date: d }, r2)),
            None => None,
        },
        None => None,
    }
}

pub open spec fn enc_utxo(u: UtxoV) -> Seq<u8> {
    enc_bytes(u.txid) + spec_u32_to_le_bytes(u.index) + enc_bytes(u.address) + spec_u64_to_le_bytes(
        u.value,
    )
}

pub open spec fn parse_utxo(s: Seq<u8>) -> Option<(UtxoV, Seq<u8>)> {
    match parse_bytes(s) {
        Some((t, r1)) => match parse_u32(r1) {
            Some((i, r2)) => match parse_bytes(r2) {
                Some((a, r3)) => match parse_u64(r3) {
                    Some((v, r4)) => Some((UtxoV { txid: t, index: i, address: a, value: v }, r4)),
                    None => None,
                },
                None => None,
            },
            None => None,
        },
        None => None,
    }
}

pub open spec fn enc_record(r: RecordV) -> Seq<u8> {
    match r {
        RecordV::Checkpoint(p) => seq![0u8] + enc_ptr(p),
        RecordV::Received(p, u) => seq![1u8] + enc_ptr(p) + enc_utxo(u),
        RecordV::Spent(p, u) => seq![2u8] + enc_ptr(p) + enc_utxo(u),
    }
}

pub open spec fn parse_record(s: Seq<u8>) -> Option<(RecordV, Seq<u8>)> {
    if s.len() == 0 {
        None
    } else {
        let r = s.subrange(1, s.len() as int);
        match parse_ptr(r) {
            Some((p, r2)) => if s[0] == 0 {
                Some((RecordV::Checkpoint(p), r2))
            } else if s[0] == 1 || s[0] == 2 {
                match parse_utxo(r2) {
                    Some((u, r3)) => Some(
                        (
                            if s[0] == 1 {
                                RecordV::Received(p, u)
                            } else {
                                RecordV::Spent(p, u)
                            },
                            r3,
                        ),
                    ),
                    None => None,
                }
            } else {
                None
            },
            None => None,
        }
    }
}

/// One record as it stands in the log: its length, then its bytes.
pub open spec fn enc_frame(r: RecordV) -> Seq<u8> {
    enc_bytes(enc_record(r))
}

/// A frame whose content is exactly one record.
pub open spec fn parse_frame(s: Seq<u8>) -> Option<(RecordV, Seq<u8>)> {
    match parse_bytes(s) {
        Some((payload, rest)) => match parse_record(payload) {
            Some((r, left)) => if left.len() == 0 {
                Some((r, rest))
            } else {
                None
            },
            None => None,
        },
        None => None,
    }
}

/// The records of a log, oldest first; `None` when any frame is malformed.
pub open spec fn parse_log(s: Seq<u8>) -> Option<Seq<RecordV>>
    decreases s.len(),
{
    if s.len() == 0 {
        Some(Seq::empty())
    } else {
        match parse_frame(s) {
            Some((r, rest)) => if rest.len() < s.len() {
                match parse_log(rest) {
                    Some(t) => Some(seq![r] + t),
                    None => None,
                }
            } else {
                None
            },
            None => None,
        }
    }
}

pub open spec fn enc_log(rs: Seq<RecordV>) -> Seq<u8>
    decreases rs.len(),
{
    if rs.len() == 0 {
        Seq::empty()
    } else {
        enc_frame(rs[0]) + enc_log(rs.drop_first())
    }
}

/// Every byte string in the record has a length that its 8-byte prefix can hold.
pub open spec fn record_fits(r: RecordV) -> bool {
    let fits = |b: Seq<u8>| b.len() <= u64::MAX;
    &&& enc_record(r).len() <= u64::MAX
    &&& match r {
        RecordV::Checkpoint(p) => fits(p.hash),
        RecordV::Received(p, u) => fits(p.hash) && fits(u.txid) && fits(u.address),
        RecordV::Spent(p, u) => fits(p.hash) && fits(u.txid) && fits(u.address),
    }
}

proof fn lemma_take(a: Seq<u8>, rest: Seq<u8>)
    ensures
        take(a + rest, a.len() as int) == Some((a, rest)),
{
    assert((a + rest).subrange(0, a.len() as int) =~= a);
    assert((a + rest).subrange(a.len() as int, (a + rest).len() as int) =~= rest);
}

proof fn lemma_ints(x: u64, y: u32, z: u16, rest: Seq<u8>)
    ensures
        parse_u64(spec_u64_to_le_bytes(x) + rest) == Some((x, rest)),
        parse_u32(spec_u32_to_le_bytes(y) + rest) == Some((y, rest)),
        parse_u16(spec_u16_to_le_bytes(z) + rest) == Some((z, rest)),
{
    lemma_auto_spec_u64_to_from_le_bytes();
    lemma_auto_spec_u32_to_from_le_bytes();
    lemma_auto_spec_u16_to_from_le_bytes();
    lemma_take(spec_u64_to_le_bytes(x), rest);
    lemma_take(spec_u32_to_le_bytes(y), rest);
    lemma_take(spec_u16_to_le_bytes(z), rest);
}

proof fn lemma_bytes(b: Seq<u8>, rest: Seq<u8>)
    requires
        b.len() <= u64::MAX,
    ensures
        parse_bytes(enc_bytes(b) + rest) == Some((b, rest)),
{
    let n = spec_u64_to_le_bytes(b.len() as u64);
    assert(enc_bytes(b) + rest =~= n + (b + rest));
    lemma_ints(b.len() as u64, 0, 0, b + rest);
    lemma_take(b, rest);
}

proof fn lemma_date(d: Option<BlockDate>, rest: Seq<u8>)
    ensures
        parse_date(enc_date(d) + rest) == Some((d, rest)),
{
    let s = enc_date(d) + rest;
    match d {
        None => {
            assert(s.subrange(1, s.len() as int) =~= rest);
        },
        Some(BlockDate::Genesis(e)) => {
            assert(s.subrange(1, s.len() as int) =~= spec_u64_to_le_bytes(e) + rest);
            lemma_ints(e, 0, 0, rest);
        },
        Some(BlockDate::Normal(e, sl)) => {
            let t = spec_u16_to_le_bytes(sl) + rest;
            assert(s.subrange(1, s.len() as int) =~= spec_u64_to_le_bytes(e) + t);
            lemma_ints(e, 0, sl, t);
            lemma_ints(e, 0, sl, rest);
        },
    }
}

proof fn lemma_ptr(p: PtrV, rest: Seq<u8>)
    requires
        p.hash.len() <= u64::MAX,
    ensures
        parse_ptr(enc_ptr(p) + rest) == Some((p, rest)),
{
    let t = enc_date(p.date) + rest;
    assert(enc_ptr(p) + rest =~= enc_bytes(p.hash) + t);
    lemma_bytes(p.hash, t);
    lemma_date(p.date, rest);
}

proof fn lemma_utxo(u: UtxoV, rest: Seq<u8>)
    requires
        u.txid.len() <= u64::MAX,
        u.address.len() <= u64::MAX,
    ensures
        parse_utxo(enc_utxo(u) + rest) == Some((u, rest)),
{
    let t3 = spec_u64_to_le_bytes(u.value) + rest;
    let t2 = enc_bytes(u.address) + t3;
    let t1 = spec_u32_to_le_bytes(u.index) + t2;
    assert(enc_utxo(u) + rest =~= enc_bytes(u.txid) + t1);
    lemma_bytes(u.txid, t1);
    lemma_ints(0, u.index, 0, t2);
    lemma_bytes(u.address, t3);
    lemma_ints(u.value, 0, 0, rest);
}

proof fn lemma_record(r: RecordV, rest: Seq<u8>)
    requires
        record_fits(r),
    ensures
        parse_record(enc_record(r) + rest) == Some((r, rest)),
{
    let s = enc_record(r) + rest;
    match r {
        RecordV::Checkpoint(p) => {
            assert(s.subrange(1, s.len() as int) =~= enc_ptr(p) + rest);
            lemma_ptr(p, rest);
        },
        RecordV::Received(p, u) => {
            assert(s.subrange(1, s.len() as int) =~= enc_ptr(p) + (enc_utxo(u) + rest));
            lemma_ptr(p, enc_utxo(u) + rest);
            lemma_utxo(u, rest);
        },
        RecordV::Spent(p, u) => {
            assert(s.subrange(1, s.len() as int) =~= enc_ptr(p) + (enc_utxo(u) + rest));
            lemma_ptr(p, enc_utxo(u) + rest);
            lemma_utxo(u, rest);
        },
    }
}

/// Reading back the frame of a record gives the record, and leaves what follows.
pub proof fn frame_round_trip(r: RecordV, rest: Seq<u8>)
    requires
        record_fits(r),
    ensures
        parse_frame(enc_frame(r) + rest) == Some((r, rest)),
{
    lemma_bytes(enc_record(r), rest);
    lemma_record(r, Seq::empty());
    assert(enc_record(r) + Seq::<u8>::empty() =~= enc_record(r));
}

/// Reading back a log written from records gives those records, in order.
pub proof fn log_round_trip(rs: Seq<RecordV>)
    requires
        forall|i: int| 0 <= i < rs.len() ==> record_fits(#[trigger] rs[i]),
    ensures
        parse_log(enc_log(rs)) == Some(rs),
    decreases rs.len(),
{
    if rs.len() > 0 {
        let rest = enc_log(rs.drop_first());
        frame_round_trip(rs[0], rest);
        assert forall|i: int| 0 <= i < rs.drop_first().len() implies record_fits(
            #[trigger] rs.drop_first()[i],
        ) by {
            assert(rs.drop_first()[i] == rs[i + 1]);
        }
        log_round_trip(rs.drop_first());
        assert(enc_frame(rs[0]).len() >= 8) by {
            lemma_auto_spec_u64_to_from_le_bytes();
        }
        assert(seq![rs[0]] + rs.drop_first() =~= rs);
    }
}

pub open spec fn suffix(b: Seq<u8>, pos: int) -> Seq<u8> {
    b.subrange(pos, b.len() as int)
}

fn push_u64(out: &mut Vec<u8>, x: u64)
    ensures
        final(out)@ == old(out)@ + spec_u64_to_le_bytes(x),
{
    let mut b = u64_to_le_bytes(x);
    out.append(&mut b);
}

fn push_bytes(out: &mut Vec<u8>, b: &Vec<u8>)
    ensures
        final(out)@ == old(out)@ + enc_bytes(b@),
{
    push_u64(out, b.len() as u64);
    let mut c = copy_bytes(b);
    out.append(&mut c);
    assert(final(out)@ =~= old(out)@ + enc_bytes(b@));
}

fn push_ptr(out: &mut Vec<u8>, p: &StatePtr)
    ensures
        final(out)@ == old(out)@ + enc_ptr(p@),
{
    push_bytes(out, &p.latest_known_hash);
    match p.latest_addr {
        None => {
            out.push(0u8);
        },
        Some(BlockDate::Genesis(e)) => {
            out.push(1u8);
            push_u64(out, e);
        },
        Some(BlockDate::Normal(e, sl)) => {
            out.push(2u8);
            push_u64(out, e);
            let mut b = u16_to_le_bytes(sl);
            out.append(&mut b);
        },
    }
    assert(final(out)@ =~= old(out)@ + enc_ptr(p@));
}

fn push_utxo(out: &mut Vec<u8>, u: &UTxO)
    ensures
        final(out)@ == old(out)@ + enc_utxo(u@),
{
    push_bytes(out, &u.transaction_id);
    let mut b = u32_to_le_bytes(u.index_in_transaction);
    out.append(&mut b);
    push_bytes(out, &u.credited_address);
    push_u64(out, u.credited_value);
    assert(final(out)@ =~= old(out)@ + enc_utxo(u@));
}

fn encode_record(r: &LogRecord) -> (out: Vec<u8>)
    ensures
        out@ == enc_record(r@),
{
    let mut out: Vec<u8> = Vec::new();
    match r {
        LogRecord::Checkpoint(p) => {
            out.push(0u8);
            push_ptr(&mut out, p);
        },
        LogRecord::ReceivedFund(p, u) => {
            out.push(1u8);
            push_ptr(&mut out, p);
            push_utxo(&mut out, u);
        },
        LogRecord::SpentFund(p, u) => {
            out.push(2u8);
            push_ptr(&mut out, p);
            push_utxo(&mut out, u);
        },
    }
    assert(out@ =~= enc_record(r@));
    out
}

/// The bytes that the log holds for one record: its frame.
pub fn serialize(r: &LogRecord) -> (out: Vec<u8>)
    ensures
        out@ == enc_frame(r@),
{
    let payload = encode_record(r);
    let mut out: Vec<u8> = Vec::new();
    push_bytes(&mut out, &payload);
    assert(out@ =~= enc_frame(r@));
    out
}

/// The position after the next `n` bytes, when there are `n`.
fn read_chunk(buf: &Vec<u8>, pos: usize, n: usize) -> (r: Option<usize>)
    requires
        pos <= buf@.len(),
    ensures
        r is Some <==> pos + n <= buf@.len(),
        r matches Some(np) ==> np == pos + n && take(suffix(buf@, pos as int), n as int) == Some(
            (buf@.subrange(pos as int, np as int), suffix(buf@, np as int)),
        ),
        r is None ==> take(suffix(buf@, pos as int), n as int) is None,
{
    if buf.len() - pos < n {
        None
    } else {
        assert(suffix(buf@, pos as int).subrange(0, n as int) =~= buf@.subrange(
            pos as int,
            pos + n,
        ));
        assert(suffix(buf@, pos as int).subrange(n as int, suffix(buf@, pos as int).len() as int)
            =~= suffix(buf@, pos + n));
        Some(pos + n)
    }
}

fn read_u64(buf: &Vec<u8>, pos: usize) -> (r: Option<(u64, usize)>)
    requires
        pos <= buf@.len(),
    ensures
        match parse_u64(suffix(buf@, pos as int)) {
            Some((v, rest)) => r matches Some((x, np)) && x == v && np <= buf@.len() && rest
                == suffix(buf@, np as int),
            None => r is None,
        },
{
    match read_chunk(buf, pos, 8) {
        Some(np) => Some((u64_from_le_bytes(slice_subrange(buf.as_slice(), pos, np)), np)),
        None => None,
    }
}

fn read_u32(buf: &Vec<u8>, pos: usize) -> (r: Option<(u32, usize)>)
    requires
        pos <= buf@.len(),
    ensures
        match parse_u32(suffix(buf@, pos as int)) {
            Some((v, rest)) => r matches Some((x, np)) && x == v && np <= buf@.len() && rest
                == suffix(buf@, np as int),
            None => r is None,
        },
{
    match read_chunk(buf, pos, 4) {
        Some(np) => Some((u32_from_le_bytes(slice_subrange(buf.as_slice(), pos, np)), np)),
        None => None,
    }
}

fn read_u16(buf: &Vec<u8>, pos: usize) -> (r: Option<(u16, usize)>)
    requires
        pos <= buf@.len(),
    ensures
        match parse_u16(suffix(buf@, pos as int)) {
            Some((v, rest)) => r matches Some((x, np)) && x == v && np <= buf@.len() && rest
                == suffix(buf@, np as int),
            None => r is None,
        },
{
    match read_chunk(buf, pos, 2) {
        Some(np) => Some((u16_from_le_bytes(slice_subrange(buf.as_slice(), pos, np)), np)),
        None => None,
    }
}

fn read_bytes(buf: &Vec<u8>, pos: usize) -> (r: Option<(Vec<u8>, usize)>)
    requires
        pos <= buf@.len(),
    ensures
        match parse_bytes(suffix(buf@, pos as int)) {
            Some((v, rest)) => r matches Some((x, np)) && x@ == v && np <= buf@.len() && rest
                == suffix(buf@, np as int),
            None => r is None,
        },
{
    match read_u64(buf, pos) {
        Some((n, pos1)) => {
            if n > (buf.len() - pos1) as u64 {
                return None;
            }
            match read_chunk(buf, pos1, n as usize) {
                Some(np) => Some((slice_to_vec(slice_subrange(buf.as_slice(), pos1, np)), np)),
                None => None,
            }
        },
        None => None,
    }
}

fn read_ptr(buf: &Vec<u8>, pos: usize) -> (r: Option<(StatePtr, usize)>)
    requires
        pos <= buf@.len(),
    ensures
        match parse_ptr(suffix(buf@, pos as int)) {
            Some((v, rest)) => r matches Some((x, np)) && x@ == v && np <= buf@.len() && rest
                == suffix(buf@, np as int),
            None => r is None,
        },
{
    let (h, pos1) = match read_bytes(buf, pos) {
        Some(x) => x,
        None => {
            return None;
        },
    };
    if pos1 >= buf.len() {
        return None;
    }
    let tag = buf[pos1];
    let pos2 = pos1 + 1;
    assert(suffix(suffix(buf@, pos1 as int), 1) =~= suffix(buf@, pos2 as int));
    let (date, np) = if tag == 0 {
        (None, pos2)
    } else if tag == 1 {
        match read_u64(buf, pos2) {
            Some((e, pos3)) => (Some(BlockDate::Genesis(e)), pos3),
            None => {
                return None;
            },
        }
    } else if tag == 2 {
        match read_u64(buf, pos2) {
            Some((e, pos3)) => match read_u16(buf, pos3) {
                Some((sl, pos4)) => (Some(BlockDate::Normal(e, sl)), pos4),
                None => {
                    return None;
                },
            },
            None => {
                return None;
            },
        }
    } else {
        return None;
    };
    Some((StatePtr { latest_known_hash: h, latest_addr: date }, np))
}

fn read_utxo(buf: &Vec<u8>, pos: usize) -> (r: Option<(UTxO, usize)>)
    requires
        pos <= buf@.len(),
    ensures
        match parse_utxo(suffix(buf@, pos as int)) {
            Some((v, rest)) => r matches Some((x, np)) && x@ == v && np <= buf@.len() && rest
                == suffix(buf@, np as int),
            None => r is None,
        },
{
    let (t, pos1) = match read_bytes(buf, pos) {
        Some(x) => x,
        None => {
            return None;
        },
    };
    let (i, pos2) = match read_u32(buf, pos1) {
        Some(x) => x,
        None => {
            return None;
        },
    };
    let (a, pos3) = match read_bytes(buf, pos2) {
        Some(x) => x,
        None => {
            return None;
        },
    };
    let (v, pos4) = match read_u64(buf, pos3) {
        Some(x) => x,
        None => {
            return None;
        },
    };
    Some((UTxO { transaction_id: t, index_in_transaction: i, credited_address: a, credited_value: v }, pos4))
}

fn read_record(buf: &Vec<u8>, pos: usize) -> (r: Option<(LogRecord, usize)>)
    requires
        pos <= buf@.len(),
    ensures
        match parse_record(suffix(buf@, pos as int)) {
            Some((v, rest)) => r matches Some((x, np)) && x@ == v && np <= buf@.len() && rest
                == suffix(buf@, np as int),
            None => r is None,
        },
{
    if pos >= buf.len() {
        return None;
    }
    let tag = buf[pos];
    let pos1 = pos + 1;
    assert(suffix(suffix(buf@, pos as int), 1) =~= suffix(buf@, pos1 as int));
    let (p, pos2) = match read_ptr(buf, pos1) {
        Some(x) => x,
        None => {
            return None;
        },
    };
    if tag == 0 {
        Some((LogRecord::Checkpoint(p), pos2))
    } else if tag == 1 || tag == 2 {
        match read_utxo(buf, pos2) {
            Some((u, pos3)) => if tag == 1 {
                Some((LogRecord::ReceivedFund(p, u), pos3))
            } else {
                Some((LogRecord::SpentFund(p, u), pos3))
            },
            None => None,
        }
    } else {
        None
    }
}

/// The record framed at `pos`, and the position after the frame.
fn read_frame(buf: &Vec<u8>, pos: usize) -> (r: Option<(LogRecord, usize)>)
    requires
        pos <= buf@.len(),
    ensures
        match parse_frame(suffix(buf@, pos as int)) {
            Some((v, rest)) => r matches Some((x, np)) && x@ == v && np <= buf@.len() && rest
                == suffix(buf@, np as int),
            None => r is None,
        },
{
    let (payload, np) = match read_bytes(buf, pos) {
        Some(x) => x,
        None => {
            return None;
        },
    };
    assert(suffix(payload@, 0) =~= payload@);
    match read_record(&payload, 0) {
        Some((rec, used)) => if used == payload.len() {
            Some((rec, np))
        } else {
            None
        },
        None => None,
    }
}

/// The record of one frame that fills `bytes` exactly.
pub fn deserialize(bytes: &Vec<u8>) -> (r: Result<LogRecord, DecodeError>)
    ensures
        match parse_frame(bytes@) {
            Some((v, rest)) => if rest.len() == 0 {
                r matches Ok(x) && x@ == v
            } else {
                r == Err::<LogRecord, DecodeError>(DecodeError::Malformed)
            },
            None => r == Err::<LogRecord, DecodeError>(DecodeError::Malformed),
        },
{
    assert(suffix(bytes@, 0) =~= bytes@);
    match read_frame(bytes, 0) {
        Some((rec, np)) => if np == bytes.len() {
            Ok(rec)
        } else {
            Err(DecodeError::Malformed)
        },
        None => Err(DecodeError::Malformed),
    }
}

/// The records of a whole log, oldest first. A malformed frame anywhere fails
/// the whole read.
pub fn decode_log(bytes: &Vec<u8>) -> (r: Result<Vec<LogRecord>, DecodeError>)
    ensures
        match parse_log(bytes@) {
            Some(t) => r matches Ok(v) && records_view(v@) == t,
            None => r == Err::<Vec<LogRecord>, DecodeError>(DecodeError::Malformed),
        },
{
    let mut out: Vec<LogRecord> = Vec::new();
    let mut pos: usize = 0;
    assert(suffix(bytes@, 0) =~= bytes@);
    assert(records_view(out@) =~= Seq::<RecordV>::empty());
    while pos < bytes.len()
        invariant
            pos <= bytes@.len(),
            parse_log(bytes@) == match parse_log(suffix(bytes@, pos as int)) {
                Some(t) => Some(records_view(out@) + t),
                None => None::<Seq<RecordV>>,
            },
        decreases bytes@.len() - pos,
    {
        let ghost out0 = records_view(out@);
        match read_frame(bytes, pos) {
            Some((rec, np)) => {
                if np <= pos {
                    return Err(DecodeError::Malformed);
                }
                let ghost rv = rec@;
                out.push(rec);
                pos = np;
                assert(records_view(out@) =~= out0.push(rv));
                proof {
                    match parse_log(suffix(bytes@, pos as int)) {
                        Some(t) => {
                            assert(out0 + (seq![rv] + t) =~= out0.push(rv) + t);
                        },
                        None => {},
                    }
                }
            },
            None => {
                return Err(DecodeError::Malformed);
            },
        }
    }
    assert(suffix(bytes@, pos as int) =~= Seq::<u8>::empty());
    assert(records_view(out@) + Seq::<RecordV>::empty() =~= records_view(out@));
    Ok(out)
}

} // verus!
