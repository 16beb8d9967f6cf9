//! The table: a fixed row of forks, each free or in exactly one hand.
//!
//! The model of a table is the sequence of its forks' holders. A request never
//! waits: taking a fork that is in use answers `Ok(false)` and changes nothing,
//! so that whoever shares the table among threads decides how to wait.
//!
//! A table also remembers, for proofs only, every request it has granted and
//! to whom, in the order in which it granted them.

use vstd::prelude::*;
use crate::error::PoolError;

verus! {

/// The holders of a row of forks: `None` for a free fork, else the hand it is in.
pub type Holders = Seq<Option<usize>>;

/// A request on one fork.
pub enum Op {
    /// Take the fork with this index.
    Acquire(usize),
    /// Put down the fork with this index.
    Release(usize),
}

/// A request that the table granted, and the hand it granted it to.
pub struct Grant {
    /// The hand that asked.
    pub who: usize,
    /// What it asked for and got.
    pub op: Op,
}

impl Grant {
    /// The grant of the fork `fork` to the hand `who`.
    pub open spec fn took(who: usize, fork: usize) -> Grant {
        Grant { who: who, op: Op::Acquire(fork) }
    }

    /// The grant to the hand `who` of putting down the fork `fork`.
    pub open spec fn put(who: usize, fork: usize) -> Grant {
        Grant { who: who, op: Op::Release(fork) }
    }
}

/// A row of `forks` free forks.
pub open spec fn all_free(forks: nat) -> Holders {
    Seq::new(forks, |k: int| None::<usize>)
}

/// The fork at `index` exists and is free.
pub open spec fn is_free(holders: Holders, index: usize) -> bool {
    index < holders.len() && holders[index as int] is None
}

/// The fork at `index` exists and is in the hand of `who`.
pub open spec fn is_held_by(holders: Holders, index: usize, who: usize) -> bool {
    index < holders.len() && holders[index as int] == Some(who)
}

/// What the table answers when the fork at `index` is asked for: whether it
/// was handed over, or that there is no such fork.
pub open spec fn acquire_answer(holders: Holders, index: usize) -> Result<bool, PoolError> {
    if index >= holders.len() {
        Err(PoolError::InvalidIndex)
    } else {
        Ok(holders[index as int] is None)
    }
}

/// The row after `who` has asked for the fork at `index`: the fork changes
/// hands if it was free, and nothing changes otherwise.
pub open spec fn after_acquire(holders: Holders, index: usize, who: usize) -> Holders {
    if is_free(holders, index) {
        holders.update(index as int, Some(who))
    } else {
        holders
    }
}

/// The grants so far after `who` has asked for the fork at `index`: one more
/// if the fork was free.
pub open spec fn grants_after_acquire(
    grants: Seq<Grant>,
    holders: Holders,
    index: usize,
    who: usize,
) -> Seq<Grant> {
    if is_free(holders, index) {
        grants.push(Grant::took(who, index))
    } else {
        grants
    }
}

/// What the table answers when `who` puts down the fork at `index`.
pub open spec fn release_answer(
    holders: Holders,
    index: usize,
    who: usize,
) -> Result<(), PoolError> {
    if index >= holders.len() {
        Err(PoolError::InvalidIndex)
    } else if holders[index as int] == Some(who) {
        Ok(())
    } else {
        Err(PoolError::NotHeld)
    }
}

/// The row after `who` has tried to put down the fork at `index`: the fork is
/// free again if `who` held it, and nothing changes otherwise.
pub open spec fn after_release(holders: Holders, index: usize, who: usize) -> Holders {
    if is_held_by(holders, index, who) {
        holders.update(index as int, None)
    } else {
        holders
    }
}

/// The grants so far after `who` has tried to put down the fork at `index`:
/// one more if `who` held it.
pub open spec fn grants_after_release(
    grants: Seq<Grant>,
    holders: Holders,
    index: usize,
    who: usize,
) -> Seq<Grant> {
    if is_held_by(holders, index, who) {
        grants.push(Grant::put(who, index))
    } else {
        grants
    }
}

/// A fixed row of at least two forks.
pub struct Table {
    forks: Vec<Option<usize>>,
    granted: Ghost<Seq<Grant>>,
}

impl View for Table {
    type V = Holders;

    closed spec fn view(&self) -> Holders {
        self.forks@
    }
}

impl Clone for Table {
    /// A second table with the same forks in the same hands and the same
    /// grants behind it.
    fn clone(&self) -> (copy: Table)
        ensures
            copy@ == self@,
            copy.granted() == self.granted(),
    {
        proof {
            use_type_invariant(self);
        }
        let row = self.forks.clone();
        assert(row@ =~= self.forks@);
        Table { forks: row, granted: Ghost(self.granted@) }
    }
}

impl Table {
    /// Every request that the table has granted since it was laid, in the
    /// order in which it granted them.
    pub closed spec fn granted(&self) -> Seq<Grant> {
        self.granted@
    }

    #[verifier::type_invariant]
    spec fn laid(&self) -> bool {
        self.forks@.len() >= 2
    }

    /// Lays a table with `forks` forks, all of them free.
    pub fn new(forks: usize) -> (table: Table)
        requires
            forks >= 2,
        ensures
            table@ == all_free(forks as nat),
            table.granted() == Seq::<Grant>::empty(),
    {
        let mut row: Vec<Option<usize>> = Vec::new();
        let mut k: usize = 0;
        while k < forks
            invariant
                k <= forks,
                row@ == all_free(k as nat),
            decreases forks - k,
        {
            row.push(None);
            k += 1;
        }
        Table { forks: row, granted: Ghost(Seq::empty()) }
    }

    /// The number of forks, which never changes.
    pub fn len(&self) -> (forks: usize)
        ensures
            forks == self@.len(),
            forks >= 2,
    {
        proof {
            use_type_invariant(self);
        }
        self.forks.len()
    }

    /// Takes the fork at `index` for `who` if it is free.
    ///
    /// Answers `Ok(true)` when the fork was free and is now in the hand of `who`,
    /// `Ok(false)` when it is in use (by anyone, `who` included) and
    /// `InvalidIndex` when there is no such fork. Only the first changes the
    /// table, and only the first is added to its grants.
    pub fn try_acquire(&mut self, index: usize, who: usize) -> (answer: Result<bool, PoolError>)
        ensures
            answer == acquire_answer(old(self)@, index),
            final(self)@ == after_acquire(old(self)@, index, who),
            final(self).granted() == grants_after_acquire(
                old(self).granted(),
                old(self)@,
                index,
                who,
            ),
    {
        proof {
            use_type_invariant(&*self);
        }
        if index >= self.forks.len() {
            return Err(PoolError::InvalidIndex);
        }
        match self.forks[index] {
            Some(_) => Ok(false),
            None => {
                self.forks[index] = Some(who);
                self.granted = Ghost(self.granted@.push(Grant::took(who, index)));
                Ok(true)
            },
        }
    }

    /// Puts down the fork at `index`, which must be in the hand of `who`.
    ///
    /// Fails with `InvalidIndex` when there is no such fork and with `NotHeld`
    /// when the fork is free or in another hand; a failure changes nothing and
    /// adds nothing to the grants.
    pub fn release(&mut self, index: usize, who: usize) -> (done: Result<(), PoolError>)
        ensures
            done == release_answer(old(self)@, index, who),
            final(self)@ == after_release(old(self)@, index, who),
            final(self).granted() == grants_after_release(
                old(self).granted(),
                old(self)@,
                index,
                who,
            ),
    {
        proof {
            use_type_invariant(&*self);
        }
        if index >= self.forks.len() {
            return Err(PoolError::InvalidIndex);
        }
        match self.forks[index] {
            Some(holder) => {
                if holder == who {
                    self.forks[index] = None;
                    self.granted = Ghost(self.granted@.push(Grant::put(who, index)));
                    Ok(())
                } else {
                    Err(PoolError::NotHeld)
                }
            },
            None => Err(PoolError::NotHeld),
        }
    }
}

} // verus!
