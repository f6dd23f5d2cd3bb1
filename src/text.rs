//! Decimal and hexadecimal text, and padding, as the log's presentation uses them.
use vstd::prelude::*;
use crate::date::BlockDate;

verus! {

pub open spec fn digit_chars() -> Seq<char> {
    seq!['0', '1', '2', '3', '4', '5', '6', '7', '8', '9', 'a', 'b', 'c', 'd', 'e', 'f']
}

/// The decimal digits of `n`, without leading zeros.
pub open spec fn decimal(n: nat) -> Seq<char>
    decreases n,
{
    if n < 10 {
        seq![digit_chars()[n as int]]
    } else {
        decimal(n / 10).push(digit_chars()[(n % 10) as int])
    }
}

/// Two lowercase hexadecimal digits per byte.
pub open spec fn hex(b: Seq<u8>) -> Seq<char>
    decreases b.len(),
{
    if b.len() == 0 {
        Seq::empty()
    } else {
        hex(b.drop_last()) + seq![
            digit_chars()[(b.last() / 16) as int],
            digit_chars()[(b.last() % 16) as int],
        ]
    }
}

pub open spec fn repeat(c: char, n: nat) -> Seq<char> {
    Seq::new(n, |i: int| c)
}

/// `s` followed by spaces up to `width` characters.
pub open spec fn pad_end(s: Seq<char>, width: nat) -> Seq<char> {
    if s.len() >= width {
        s
    } else {
        s + repeat(' ', (width - s.len()) as nat)
    }
}

/// `s` behind `fill` characters up to `width` characters.
pub open spec fn pad_start(s: Seq<char>, width: nat, fill: char) -> Seq<char> {
    if s.len() >= width {
        s
    } else {
        repeat(fill, (width - s.len()) as nat) + s
    }
}

/// Printable ASCII: one column per character on a terminal.
pub open spec fn printable_ascii(s: Seq<char>) -> bool {
    forall|i: int| 0 <= i < s.len() ==> ' ' <= #[trigger] s[i] <= '~'
}

/// How a block date is written: `epoch.GENESIS` or `epoch.slot`.
pub open spec fn date_text(d: BlockDate) -> Seq<char> {
    match d {
        BlockDate::Genesis(e) => decimal(e as nat) + seq!['.', 'G', 'E', 'N', 'E', 'S', 'I', 'S'],
        BlockDate::Normal(e, s) => decimal(e as nat) + seq!['.'] + decimal(s as nat),
    }
}

fn digit_char(d: u8) -> (c: char)
    requires
        d < 16,
    ensures
        c == digit_chars()[d as int],
{
    let t: [char; 16] = ['0', '1', '2', '3', '4', '5', '6', '7', '8', '9', 'a', 'b', 'c', 'd', 'e', 'f'];
    assert(t@ =~= digit_chars());
    t[d as usize]
}

pub fn push_chars(out: &mut Vec<char>, s: &[char])
    ensures
        final(out)@ == old(out)@ + s@,
{
    let mut i: usize = 0;
    while i < s.len()
        invariant
            i <= s@.len(),
            out@ == old(out)@ + s@.subrange(0, i as int),
        decreases s@.len() - i,
    {
        out.push(s[i]);
        i = i + 1;
        assert(out@ =~= old(out)@ + s@.subrange(0, i as int));
    }
    assert(s@.subrange(0, i as int) =~= s@);
}

pub fn push_repeat(out: &mut Vec<char>, c: char, n: usize)
    ensures
        final(out)@ == old(out)@ + repeat(c, n as nat),
{
    let mut i: usize = 0;
    while i < n
        invariant
            i <= n,
            out@ == old(out)@ + repeat(c, i as nat),
        decreases n - i,
    {
        out.push(c);
        i = i + 1;
        assert(out@ =~= old(out)@ + repeat(c, i as nat));
    }
}

pub fn push_decimal(out: &mut Vec<char>, n: u64)
    ensures
        final(out)@ == old(out)@ + decimal(n as nat),
    decreases n,
{
    if n >= 10 {
        push_decimal(out, n / 10);
    }
    out.push(digit_char((n % 10) as u8));
    assert(final(out)@ =~= old(out)@ + decimal(n as nat));
}

/// The decimal digits of `n`.
pub fn decimal_chars(n: u64) -> (r: Vec<char>)
    ensures
        r@ == decimal(n as nat),
{
    let mut r: Vec<char> = Vec::new();
    push_decimal(&mut r, n);
    assert(r@ =~= decimal(n as nat));
    r
}

pub fn push_hex(out: &mut Vec<char>, b: &Vec<u8>)
    ensures
        final(out)@ == old(out)@ + hex(b@),
{
    let mut i: usize = 0;
    while i < b.len()
        invariant
            i <= b@.len(),
            out@ == old(out)@ + hex(b@.subrange(0, i as int)),
        decreases b@.len() - i,
    {
        let ghost prev = out@;
        out.push(digit_char(b[i] / 16));
        out.push(digit_char(b[i] % 16));
        assert(b@.subrange(0, i + 1).drop_last() =~= b@.subrange(0, i as int));
        i = i + 1;
        assert(out@ =~= old(out)@ + hex(b@.subrange(0, i as int)));
    }
    assert(b@.subrange(0, i as int) =~= b@);
}

/// Appends `s` behind `fill` characters up to `width` characters.
pub fn push_padded_start(out: &mut Vec<char>, s: &Vec<char>, width: usize, fill: char)
    ensures
        final(out)@ == old(out)@ + pad_start(s@, width as nat, fill),
{
    if s.len() < width {
        push_repeat(out, fill, width - s.len());
    }
    push_chars(out, s.as_slice());
    assert(final(out)@ =~= old(out)@ + pad_start(s@, width as nat, fill));
}

pub fn push_date(out: &mut Vec<char>, d: BlockDate)
    ensures
        final(out)@ == old(out)@ + date_text(d),
{
    match d {
        BlockDate::Genesis(e) => {
            push_decimal(out, e);
            push_chars(out, &['.', 'G', 'E', 'N', 'E', 'S', 'I', 'S']);
        },
        BlockDate::Normal(e, s) => {
            push_decimal(out, e);
            out.push('.');
            push_decimal(out, s as u64);
        },
    }
    assert(final(out)@ =~= old(out)@ + date_text(d));
}

proof fn lemma_decimal_printable(n: nat)
    ensures
        printable_ascii(decimal(n)),
    decreases n,
{
    if n >= 10 {
        lemma_decimal_printable(n / 10);
    }
}

pub proof fn lemma_date_printable(d: BlockDate)
    ensures
        printable_ascii(date_text(d)),
{
    match d {
        BlockDate::Genesis(e) => lemma_decimal_printable(e as nat),
        BlockDate::Normal(e, s) => {
            lemma_decimal_printable(e as nat);
            lemma_decimal_printable(s as nat);
        },
    }
}

} // verus!
