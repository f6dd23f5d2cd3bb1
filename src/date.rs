//! Block dates: a position on the chain, as an epoch and a slot within it.
use vstd::prelude::*;

verus! {

/// The date of a block: the genesis block of an epoch, or a slot of an epoch.
#[derive(Clone, Copy, Debug, PartialEq, Eq, Structural)]
pub enum BlockDate {
    Genesis(u64),
    Normal(u64, u16),
}

impl BlockDate {
    /// The epoch that the date belongs to.
    pub open spec fn epoch(self) -> u64 {
        match self {
            BlockDate::Genesis(e) => e,
            BlockDate::Normal(e, _) => e,
        }
    }

    /// Rank within the epoch: the genesis block comes before every slot.
    pub open spec fn rank(self) -> int {
        match self {
            BlockDate::Genesis(_) => 0,
            BlockDate::Normal(_, s) => s + 1,
        }
    }

    /// Chain order on dates: by epoch, then by rank.
    pub open spec fn spec_le(self, other: BlockDate) -> bool {
        self.epoch() < other.epoch() || (self.epoch() == other.epoch() && self.rank()
            <= other.rank())
    }

    pub fn get_epochid(&self) -> (r: u64)
        ensures
            r == self.epoch(),
    {
        match self {
            BlockDate::Genesis(e) => *e,
            BlockDate::Normal(e, _) => *e,
        }
    }

    /// Whether `self` comes no later than `other` on the chain.
    pub fn le(&self, other: &BlockDate) -> (r: bool)
        ensures
            r == self.spec_le(*other),
    {
        let (e1, r1): (u64, u32) = match self {
            BlockDate::Genesis(e) => (*e, 0),
            BlockDate::Normal(e, s) => (*e, *s as u32 + 1),
        };
        let (e2, r2): (u64, u32) = match other {
            BlockDate::Genesis(e) => (*e, 0),
            BlockDate::Normal(e, s) => (*e, *s as u32 + 1),
        };
        e1 < e2 || (e1 == e2 && r1 <= r2)
    }
}

} // verus!
