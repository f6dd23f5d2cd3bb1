//! The two presentations of a log entry: a one-line summary and a dump.
use vstd::prelude::*;
use crate::text::{
    date_text, decimal, decimal_chars, hex, lemma_date_printable, pad_end, pad_start,
    printable_ascii, push_chars, push_date, push_decimal, push_hex, push_padded_start, repeat,
};
use crate::types::{StatePtr, UTxO, PtrV, UtxoV};

verus! {

/// Relies on `FromIterator<char>` for `String`: the characters, in order.
#[verifier::external_body]
pub(crate) fn chars_to_string(v: &Vec<char>) -> (r: String)
    ensures
        r@ == v@,
{
    v.iter().collect()
}

/// Relies on `str::chars`: the characters of the string, in order.
#[verifier::external_body]
pub(crate) fn string_to_chars(s: &String) -> (r: Vec<char>)
    ensures
        r@ == s@,
{
    s.chars().collect()
}

/// Relies on `console::pad_str` with left alignment and no truncation: a
/// string of printable ASCII is measured by its length, and when shorter than
/// `width` it is followed by spaces up to `width`; else it comes back as it is.
#[verifier::external_body]
fn pad_str_left(s: &String, width: usize) -> (r: String)
    requires
        printable_ascii(s@),
    ensures
        r@ == pad_end(s@, width as nat),
{
    console::pad_str(s, width, console::Alignment::Left, None).into_owned()
}

/// The width of the credit and debit columns.
pub const AMOUNT_WIDTH: usize = 14;

/// The summary line of an entry: date, output identity, and the value in the
/// credit or the debit column.
pub open spec fn utxo_line(p: PtrV, u: UtxoV, debit: bool) -> Seq<char> {
    let amount = pad_start(decimal(u.value as nat), 14, ' ');
    let blank = repeat(' ', 14);
    pad_end(date_text(p.block_date()), 9) + seq!['|'] + hex(u.txid) + seq!['.'] + pad_start(
        decimal(u.index as nat),
        3,
        '0',
    ) + seq!['|'] + (if debit {
        blank
    } else {
        amount
    }) + seq!['|'] + (if debit {
        amount
    } else {
        blank
    }) + seq!['\n']
}

/// The dump of an entry: a title line, then date, block and value, then a blank line.
pub open spec fn utxo_dump(p: PtrV, u: UtxoV, debit: bool) -> Seq<char> {
    (if debit {
        seq!['d', 'e', 'b', 'i', 't']
    } else {
        seq!['c', 'r', 'e', 'd', 'i', 't']
    }) + seq![' '] + hex(u.txid) + seq!['.'] + decimal(u.index as nat) + seq!['\n'] + seq![
        'D',
        'a',
        't',
        'e',
        ' ',
    ] + date_text(p.block_date()) + seq!['\n'] + seq!['B', 'l', 'o', 'c', 'k', ' '] + hex(p.hash)
        + seq!['\n'] + seq!['V', 'a', 'l', 'u', 'e', ' '] + decimal(u.value as nat) + seq![
        '\n',
        '\n',
    ]
}

fn push_amount(out: &mut Vec<char>, value: u64, show: bool)
    ensures
        final(out)@ == old(out)@ + if show {
            pad_start(decimal(value as nat), 14, ' ')
        } else {
            repeat(' ', 14)
        },
{
    let blank: Vec<char> = Vec::new();
    if show {
        push_padded_start(out, &decimal_chars(value), AMOUNT_WIDTH, ' ');
    } else {
        push_padded_start(out, &blank, AMOUNT_WIDTH, ' ');
        assert(pad_start(blank@, 14, ' ') =~= repeat(' ', 14));
    }
}

/// The summary line of a received (`debit` false) or spent (`debit` true) output.
pub fn display_utxo(ptr: &StatePtr, utxo: &UTxO, debit: bool) -> (r: String)
    ensures
        r@ == utxo_line(ptr@, utxo@, debit),
{
    let mut date: Vec<char> = Vec::new();
    push_date(&mut date, ptr.latest_block_date());
    proof {
        lemma_date_printable(ptr@.block_date());
        assert(date@ =~= date_text(ptr@.block_date()));
    }
    let padded = pad_str_left(&chars_to_string(&date), 9);
    let mut out = string_to_chars(&padded);
    out.push('|');
    push_hex(&mut out, &utxo.transaction_id);
    out.push('.');
    push_padded_start(&mut out, &decimal_chars(utxo.index_in_transaction as u64), 3, '0');
    out.push('|');
    push_amount(&mut out, utxo.credited_value, !debit);
    out.push('|');
    push_amount(&mut out, utxo.credited_value, debit);
    out.push('\n');
    assert(out@ =~= utxo_line(ptr@, utxo@, debit));
    chars_to_string(&out)
}

/// The dump of a received (`debit` false) or spent (`debit` true) output.
pub fn dump_utxo(ptr: &StatePtr, utxo: &UTxO, debit: bool) -> (r: String)
    ensures
        r@ == utxo_dump(ptr@, utxo@, debit),
{
    let mut out: Vec<char> = Vec::new();
    if debit {
        push_chars(&mut out, &['d', 'e', 'b', 'i', 't']);
    } else {
        push_chars(&mut out, &['c', 'r', 'e', 'd', 'i', 't']);
    }
    out.push(' ');
    push_hex(&mut out, &utxo.transaction_id);
    out.push('.');
    push_decimal(&mut out, utxo.index_in_transaction as u64);
    out.push('\n');
    push_chars(&mut out, &['D', 'a', 't', 'e', ' ']);
    push_date(&mut out, ptr.latest_block_date());
    out.push('\n');
    push_chars(&mut out, &['B', 'l', 'o', 'c', 'k', ' ']);
    push_hex(&mut out, &ptr.latest_known_hash);
    out.push('\n');
    push_chars(&mut out, &['V', 'a', 'l', 'u', 'e', ' ']);
    push_decimal(&mut out, utxo.credited_value);
    out.push('\n');
    out.push('\n');
    assert(out@ =~= utxo_dump(ptr@, utxo@, debit));
    chars_to_string(&out)
}

} // verus!
