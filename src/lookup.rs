//! Deciding whether an output belongs to the wallet.
//!
//! Two schemes are offered. The sequential one scans a window of addresses
//! derived in order, and a hit slides the window forward. The random-index one
//! matches against a fixed set of addresses, each with its derivation path.
use vstd::prelude::*;
use vstd::bytes::{spec_u64_to_le_bytes, u64_to_le_bytes};
use crate::types::copy_bytes;

verus! {

/// The first of the first `n` addresses that equals `a`, if any.
pub open spec fn first_match(addrs: Seq<Vec<u8>>, a: Seq<u8>, n: int) -> Option<int>
    decreases n,
{
    if n <= 0 {
        None
    } else {
        match first_match(addrs, a, n - 1) {
            Some(i) => Some(i),
            None => if addrs[n - 1]@ == a {
                Some(n - 1)
            } else {
                None
            },
        }
    }
}

proof fn lemma_first_match_bound(addrs: Seq<Vec<u8>>, a: Seq<u8>, n: int)
    ensures
        match first_match(addrs, a, n) {
            Some(i) => 0 <= i < n && addrs[i]@ == a,
            None => true,
        },
    decreases n,
{
    if n > 0 {
        lemma_first_match_bound(addrs, a, n - 1);
    }
}

proof fn lemma_first_match_stable(addrs: Seq<Vec<u8>>, a: Seq<u8>, m: int, n: int)
    requires
        m <= n,
        first_match(addrs, a, m) is Some,
    ensures
        first_match(addrs, a, n) == first_match(addrs, a, m),
    decreases n - m,
{
    if m < n {
        lemma_first_match_stable(addrs, a, m, n - 1);
    }
}

fn find_address(addrs: &Vec<Vec<u8>>, a: &Vec<u8>, n: usize) -> (r: Option<usize>)
    requires
        n <= addrs@.len(),
    ensures
        match r {
            Some(i) => first_match(addrs@, a@, n as int) == Some(i as int),
            None => first_match(addrs@, a@, n as int) == None::<int>,
        },
{
    let mut i: usize = 0;
    while i < n
        invariant
            i <= n <= addrs@.len(),
            first_match(addrs@, a@, i as int) == None::<int>,
        decreases n - i,
    {
        if crate::types::bytes_eq(&addrs[i], a) {
            assert(first_match(addrs@, a@, i as int + 1) == Some(i as int));
            proof {
                lemma_first_match_stable(addrs@, a@, i as int + 1, n as int);
            }
            return Some(i);
        }
        assert(first_match(addrs@, a@, i as int + 1) == None::<int>);
        i = i + 1;
    }
    None
}

/// Addresses derived in order, of which those below `used + gap` are watched.
#[derive(Clone, Debug, PartialEq, Eq)]
pub struct SequentialLookup {
    pub addresses: Vec<Vec<u8>>,
    pub used: usize,
    pub gap: usize,
}

/// A fixed set of addresses, each with the derivation path that identifies it.
#[derive(Clone, Debug, PartialEq, Eq)]
pub struct RandomIndexLookup {
    pub addresses: Vec<Vec<u8>>,
    pub paths: Vec<Vec<u8>>,
}

#[derive(Clone, Debug, PartialEq, Eq)]
pub enum AddressLookup {
    Sequential(SequentialLookup),
    RandomIndex(RandomIndexLookup),
}

pub enum LookupV {
    Sequential(Seq<Vec<u8>>, nat, nat),
    RandomIndex(Seq<Vec<u8>>, Seq<Vec<u8>>),
}

impl View for AddressLookup {
    type V = LookupV;

    open spec fn view(&self) -> LookupV {
        match self {
            AddressLookup::Sequential(s) => LookupV::Sequential(
                s.addresses@,
                s.used as nat,
                s.gap as nat,
            ),
            AddressLookup::RandomIndex(r) => LookupV::RandomIndex(r.addresses@, r.paths@),
        }
    }
}

/// The number of sequential addresses that are watched.
pub open spec fn window(len: nat, used: nat, gap: nat) -> nat {
    if used + gap <= len {
        used + gap
    } else {
        len
    }
}

impl LookupV {
    pub open spec fn wf(self) -> bool {
        match self {
            LookupV::Sequential(_, _, _) => true,
            LookupV::RandomIndex(a, p) => a.len() == p.len(),
        }
    }

    /// The lookup after asking about `a`, and the identity of `a` if it is ours.
    pub open spec fn lookup(self, a: Seq<u8>) -> (LookupV, Option<Seq<u8>>) {
        match self {
            LookupV::Sequential(addrs, used, gap) => match first_match(
                addrs,
                a,
                window(addrs.len(), used, gap) as int,
            ) {
                Some(i) => (
                    LookupV::Sequential(
                        addrs,
                        if used <= i {
                            (i + 1) as nat
                        } else {
                            used
                        },
                        gap,
                    ),
                    Some(spec_u64_to_le_bytes(i as u64)),
                ),
                None => (self, None),
            },
            LookupV::RandomIndex(addrs, paths) => match first_match(
                addrs,
                a,
                addrs.len() as int,
            ) {
                Some(i) => (self, Some(paths[i]@)),
                None => (self, None),
            },
        }
    }
}

impl AddressLookup {
    pub fn new_sequential(addresses: Vec<Vec<u8>>, gap: usize) -> (r: AddressLookup)
        ensures
            r@ == LookupV::Sequential(addresses@, 0, gap as nat),
    {
        AddressLookup::Sequential(SequentialLookup { addresses, used: 0, gap })
    }

    /// Fails when the two lists differ in length.
    pub fn new_random_index(addresses: Vec<Vec<u8>>, paths: Vec<Vec<u8>>) -> (r: Option<
        AddressLookup,
    >)
        ensures
            addresses@.len() == paths@.len() <==> r is Some,
            r matches Some(l) ==> l@ == LookupV::RandomIndex(addresses@, paths@),
    {
        if addresses.len() != paths.len() {
            None
        } else {
            Some(AddressLookup::RandomIndex(RandomIndexLookup { addresses, paths }))
        }
    }

    /// Whether `a` belongs to the wallet, and under which identity.
    pub fn lookup(&mut self, a: &Vec<u8>) -> (r: Option<Vec<u8>>)
        requires
            old(self)@.wf(),
        ensures
            final(self)@.wf(),
            (final(self)@, match r {
                Some(v) => Some(v@),
                None => None::<Seq<u8>>,
            }) == old(self)@.lookup(a@),
    {
        match self {
            AddressLookup::Sequential(s) => {
                let len = s.addresses.len();
                let n: usize = if s.used <= len && s.gap <= len - s.used {
                    s.used + s.gap
                } else {
                    len
                };
                match find_address(&s.addresses, a, n) {
                    Some(i) => {
                        proof {
                            lemma_first_match_bound(s.addresses@, a@, n as int);
                        }
                        if s.used <= i {
                            s.used = i + 1;
                        }
                        Some(u64_to_le_bytes(i as u64))
                    },
                    None => None,
                }
            },
            AddressLookup::RandomIndex(r) => {
                match find_address(&r.addresses, a, r.addresses.len()) {
                    Some(i) => {
                        proof {
                            lemma_first_match_bound(r.addresses@, a@, r.addresses@.len() as int);
                        }
                        Some(copy_bytes(&r.paths[i]))
                    },
                    None => None,
                }
            },
        }
    }
}

} // verus!
