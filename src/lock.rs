//! The single-writer discipline over a wallet's log: one holder at a time, and
//! a second attempt fails at once, naming the holder.
use vstd::prelude::*;

verus! {

#[derive(Clone, Copy, Debug, PartialEq, Eq, Structural)]
pub enum LockError {
    /// The log is held by the process or thread of this id.
    AlreadyLocked(u32),
}

/// Who holds the log after `pid` asks for it, and the answer it gets.
pub open spec fn acquire_spec(holder: Option<u32>, pid: u32) -> (Option<u32>, Result<(), LockError>) {
    match holder {
        Some(h) => (holder, Err(LockError::AlreadyLocked(h))),
        None => (Some(pid), Ok(())),
    }
}

/// The lock over one wallet's log, and its holder if any.
#[derive(Clone, Debug, PartialEq, Eq)]
pub struct LogLock {
    pub holder: Option<u32>,
}

impl LogLock {
    /// A lock whose current holder is `holder`.
    pub fn new(holder: Option<u32>) -> (r: LogLock)
        ensures
            r.holder == holder,
    {
        LogLock { holder }
    }

    /// Takes the lock for `pid`; never waits.
    pub fn acquire(&mut self, pid: u32) -> (r: Result<(), LockError>)
        ensures
            (final(self).holder, r) == acquire_spec(old(self).holder, pid),
    {
        match self.holder {
            Some(h) => Err(LockError::AlreadyLocked(h)),
            None => {
                self.holder = Some(pid);
                Ok(())
            },
        }
    }

    /// Gives the lock up, if `pid` holds it; says whether it did.
    pub fn release(&mut self, pid: u32) -> (r: bool)
        ensures
            r == (old(self).holder == Some(pid)),
            final(self).holder == if r {
                None
            } else {
                old(self).holder
            },
    {
        if self.holder == Some(pid) {
            self.holder = None;
            true
        } else {
            false
        }
    }
}

/// While one holder has the lock, any second attempt fails and names it.
pub proof fn second_acquire_fails(holder: Option<u32>, first: u32, second: u32)
    requires
        acquire_spec(holder, first).1 is Ok,
    ensures
        acquire_spec(acquire_spec(holder, first).0, second) == (
            Some(first),
            Err::<(), LockError>(LockError::AlreadyLocked(first)),
        ),
{
}

} // verus!
