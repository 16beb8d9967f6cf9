//! The dinner: one table, its guests, and where each guest stands in its meal.
//!
//! The model is a plain state machine. [`DinnerView::next`] says what one
//! guest's turn does to the dinner and [`DinnerView::answer`] what that turn
//! reports; the executable [`Dinner::step`] does exactly that on a real table.
//! A turn never waits: a guest whose fork is in use is told so and stays put.
//!
//! The model carries the table's grants along, so that what a turn asks of the
//! table, and in which order, is part of what the turn is.

use vstd::prelude::*;
use crate::error::PoolError;
use crate::philosopher::{Philosopher, PhilosopherView};
use crate::script::Stage;
use crate::table::{Grant, Holders, Table, after_acquire, after_release, all_free, is_free};

verus! {

/// What one turn of a guest came to.
#[derive(Clone, Copy, Debug, PartialEq, Eq, Hash, Structural)]
pub enum Step {
    /// The fork the guest needs next is in use; nothing changed.
    Waiting,
    /// The guest moved on to the given stage.
    Reached(Stage),
    /// The guest had left the table before; nothing changed.
    Over,
}

/// The model of a dinner.
pub struct DinnerView {
    /// Who holds each fork of the table.
    pub forks: Holders,
    /// The guests, each at the seat of its index.
    pub guests: Seq<PhilosopherView>,
    /// The stage of each guest's meal.
    pub stages: Seq<Stage>,
    /// Every request the table has granted so far, oldest first.
    pub granted: Seq<Grant>,
}

impl DinnerView {
    /// The dinner before anyone has moved: every fork free, every guest idle.
    pub open spec fn fresh(forks: nat, guests: Seq<PhilosopherView>) -> DinnerView {
        DinnerView {
            forks: all_free(forks),
            guests: guests,
            stages: Seq::new(guests.len(), |i: int| Stage::Idle),
            granted: Seq::empty(),
        }
    }

    /// `who` is a seat of this dinner.
    pub open spec fn seated(self, who: int) -> bool {
        0 <= who < self.guests.len()
    }

    /// The guest at seat `who` has the fork `fork` in hand, going by the stage
    /// of its meal: its first fork once it has taken one, both while it eats.
    pub open spec fn holds(self, who: int, fork: int) -> bool {
        self.seated(who) && match self.stages[who] {
            Stage::HoldingFirst => fork == self.guests[who].first(),
            Stage::HoldingBoth => fork == self.guests[who].first() || fork
                == self.guests[who].second(),
            _ => false,
        }
    }

    /// The table and the guests agree: a fork is in a guest's hand on the table
    /// exactly when that guest's meal says so, and a guest that eats holds two
    /// different forks.
    pub open spec fn wf(self) -> bool {
        &&& self.stages.len() == self.guests.len()
        &&& self.guests.len() <= usize::MAX
        &&& forall|fork: int|
            0 <= fork < self.forks.len() ==> match #[trigger] self.forks[fork] {
                Some(who) => self.holds(who as int, fork),
                None => true,
            }
        &&& forall|who: int|
            0 <= who < self.guests.len() ==> match #[trigger] self.stages[who] {
                Stage::HoldingFirst => self.grips(who, self.guests[who].first()),
                Stage::HoldingBoth => self.grips(who, self.guests[who].first()) && self.grips(
                    who,
                    self.guests[who].second(),
                ) && self.guests[who].first() != self.guests[who].second(),
                _ => true,
            }
    }

    /// On the table, the fork `fork` is in the hand of the guest at seat `who`.
    pub open spec fn grips(self, who: int, fork: usize) -> bool {
        fork < self.forks.len() && self.forks[fork as int] == Some(who as usize)
    }

    /// The dinner with the guest at seat `who` moved to `stage` over a table
    /// that now reads `forks` and has granted `granted`.
    pub open spec fn moved(
        self,
        who: int,
        stage: Stage,
        forks: Holders,
        granted: Seq<Grant>,
    ) -> DinnerView {
        DinnerView {
            forks: forks,
            guests: self.guests,
            stages: self.stages.update(who, stage),
            granted: granted,
        }
    }

    /// The dinner after one turn of the guest at seat `who`.
    ///
    /// An idle guest asks for its first fork, a guest with one fork for its
    /// second, and a guest with both puts down the second and then the first.
    /// A guest whose fork is in use stays as it is. A guest that asks for a
    /// fork the table does not have puts down what it holds and has failed.
    /// Each request made of the table and granted is added to the grants, in
    /// the order in which it is made.
    pub open spec fn next(self, who: int) -> DinnerView {
        if !self.seated(who) {
            self
        } else {
            let seat = who as usize;
            let first = self.guests[who].first();
            let second = self.guests[who].second();
            match self.stages[who] {
                Stage::Idle => if first >= self.forks.len() {
                    self.moved(who, Stage::Failed, self.forks, self.granted)
                } else if is_free(self.forks, first) {
                    self.moved(
                        who,
                        Stage::HoldingFirst,
                        after_acquire(self.forks, first, seat),
                        self.granted.push(Grant::took(seat, first)),
                    )
                } else {
                    self
                },
                Stage::HoldingFirst => if second >= self.forks.len() {
                    self.moved(
                        who,
                        Stage::Failed,
                        after_release(self.forks, first, seat),
                        self.granted.push(Grant::put(seat, first)),
                    )
                } else if is_free(self.forks, second) {
                    self.moved(
                        who,
                        Stage::HoldingBoth,
                        after_acquire(self.forks, second, seat),
                        self.granted.push(Grant::took(seat, second)),
                    )
                } else {
                    self
                },
                Stage::HoldingBoth => self.moved(
                    who,
                    Stage::Done,
                    after_release(after_release(self.forks, second, seat), first, seat),
                    self.granted.push(Grant::put(seat, second)).push(Grant::put(seat, first)),
                ),
                Stage::Done => self,
                Stage::Failed => self,
            }
        }
    }

    /// What one turn of the guest at seat `who` reports.
    ///
    /// The only failure is `InvalidIndex`, for the fork the guest asks for in
    /// this turn.
    pub open spec fn answer(self, who: int) -> Result<Step, PoolError> {
        if !self.seated(who) {
            Ok(Step::Over)
        } else {
            let first = self.guests[who].first();
            let second = self.guests[who].second();
            match self.stages[who] {
                Stage::Idle => if first >= self.forks.len() {
                    Err(PoolError::InvalidIndex)
                } else if is_free(self.forks, first) {
                    Ok(Step::Reached(Stage::HoldingFirst))
                } else {
                    Ok(Step::Waiting)
                },
                Stage::HoldingFirst => if second >= self.forks.len() {
                    Err(PoolError::InvalidIndex)
                } else if is_free(self.forks, second) {
                    Ok(Step::Reached(Stage::HoldingBoth))
                } else {
                    Ok(Step::Waiting)
                },
                Stage::HoldingBoth => Ok(Step::Reached(Stage::Done)),
                Stage::Done => Ok(Step::Over),
                Stage::Failed => Ok(Step::Over),
            }
        }
    }

    /// The dinner after the guests at the seats of `schedule` have had one
    /// turn each, in that order.
    pub open spec fn after(self, schedule: Seq<int>) -> DinnerView
        decreases schedule.len(),
    {
        if schedule.len() == 0 {
            self
        } else {
            self.after(schedule.drop_last()).next(schedule.last())
        }
    }

    /// Every guest has left the table.
    pub open spec fn all_over(self) -> bool {
        forall|who: int| 0 <= who < self.stages.len() ==> (#[trigger] self.stages[who]).is_over()
    }
}

/// One turn keeps the table and the guests in agreement.
pub proof fn next_keeps_wf(dinner: DinnerView, who: int)
    requires
        dinner.wf(),
    ensures
        dinner.next(who).wf(),
        dinner.next(who).guests == dinner.guests,
        dinner.next(who).forks.len() == dinner.forks.len(),
{
    let after = dinner.next(who);
    if dinner.seated(who) {
        assert forall|fork: int| 0 <= fork < after.forks.len() implies match #[trigger] after.forks[fork] {
            Some(holder) => after.holds(holder as int, fork),
            None => true,
        } by {
            // A fork that was in a hand before the turn was in the right one.
            if let Some(holder) = dinner.forks[fork] {
                assert(dinner.holds(holder as int, fork));
            }
        }
    }
}

/// A dinner in progress.
#[derive(Clone)]
pub struct Dinner {
    table: Table,
    guests: Vec<Philosopher>,
    stages: Vec<Stage>,
}

impl View for Dinner {
    type V = DinnerView;

    closed spec fn view(&self) -> DinnerView {
        DinnerView {
            forks: self.table@,
            guests: self.guests@.map_values(|guest: Philosopher| guest@),
            stages: self.stages@,
            granted: self.table.granted(),
        }
    }
}

impl Dinner {
    /// Seats `guests` at a new table with `forks` forks. Nobody has moved yet.
    ///
    /// Any guests are taken: one whose fork is not on the table fails when it
    /// asks for it, and one whose two forks are the same waits for itself.
    pub fn new(forks: usize, guests: Vec<Philosopher>) -> (dinner: Dinner)
        requires
            forks >= 2,
        ensures
            dinner@ == DinnerView::fresh(
                forks as nat,
                guests@.map_values(|guest: Philosopher| guest@),
            ),
            dinner@.wf(),
    {
        let table = Table::new(forks);
        let mut stages: Vec<Stage> = Vec::new();
        let mut seat: usize = 0;
        while seat < guests.len()
            invariant
                seat <= guests.len(),
                stages@ == Seq::new(seat as nat, |i: int| Stage::Idle),
            decreases guests.len() - seat,
        {
            stages.push(Stage::Idle);
            seat += 1;
        }
        Dinner { table: table, guests: guests, stages: stages }
    }

    /// The number of guests.
    pub fn len(&self) -> (guests: usize)
        ensures
            guests == self@.guests.len(),
    {
        self.guests.len()
    }

    /// The table as it stands.
    pub fn table(&self) -> (table: &Table)
        ensures
            table@ == self@.forks,
            table.granted() == self@.granted,
    {
        &self.table
    }

    /// The guest at seat `who`.
    pub fn guest(&self, who: usize) -> (guest: &Philosopher)
        requires
            who < self@.guests.len(),
        ensures
            guest@ == self@.guests[who as int],
    {
        &self.guests[who]
    }

    /// The stage of the meal of the guest at seat `who`.
    pub fn stage(&self, who: usize) -> (stage: Stage)
        requires
            self@.wf(),
            who < self@.guests.len(),
        ensures
            stage == self@.stages[who as int],
    {
        self.stages[who]
    }

    /// Whether every guest has left the table.
    pub fn finished(&self) -> (over: bool)
        ensures
            over == self@.all_over(),
    {
        let mut seat: usize = 0;
        while seat < self.stages.len()
            invariant
                seat <= self.stages.len(),
                forall|who: int| 0 <= who < seat ==> (#[trigger] self.stages@[who]).is_over(),
            decreases self.stages.len() - seat,
        {
            if !self.stages[seat].over() {
                assert(!self@.stages[seat as int].is_over());
                return false;
            }
            seat += 1;
        }
        true
    }

    /// Gives the guest at seat `who` one turn at the table.
    ///
    /// The dinner afterwards is [`DinnerView::next`] of the dinner before, and
    /// the report is [`DinnerView::answer`]: the stage reached, that the guest
    /// has to wait, that it had left already, or `InvalidIndex` when the fork it
    /// asked for is not on the table, in which case it holds nothing any more.
    pub fn step(&mut self, who: usize) -> (report: Result<Step, PoolError>)
        requires
            old(self)@.wf(),
            who < old(self)@.guests.len(),
        ensures
            final(self)@.wf(),
            final(self)@ == old(self)@.next(who as int),
            report == old(self)@.answer(who as int),
    {
        proof {
            next_keeps_wf(self@, who as int);
        }
        let first = self.guests[who].first();
        let second = self.guests[who].second();
        match self.stages[who] {
            Stage::Idle => match self.table.try_acquire(first, who) {
                Ok(true) => {
                    self.stages[who] = Stage::HoldingFirst;
                    Ok(Step::Reached(Stage::HoldingFirst))
                },
                Ok(false) => Ok(Step::Waiting),
                Err(e) => {
                    self.stages[who] = Stage::Failed;
                    Err(e)
                },
            },
            Stage::HoldingFirst => match self.table.try_acquire(second, who) {
                Ok(true) => {
                    self.stages[who] = Stage::HoldingBoth;
                    Ok(Step::Reached(Stage::HoldingBoth))
                },
                Ok(false) => Ok(Step::Waiting),
                Err(e) => {
                    let put_down = self.table.release(first, who);
                    assert(put_down is Ok);
                    self.stages[who] = Stage::Failed;
                    Err(e)
                },
            },
            Stage::HoldingBoth => {
                let second_down = self.table.release(second, who);
                let first_down = self.table.release(first, who);
                assert(second_down is Ok && first_down is Ok);
                self.stages[who] = Stage::Done;
                Ok(Step::Reached(Stage::Done))
            },
            Stage::Done => Ok(Step::Over),
            Stage::Failed => Ok(Step::Over),
        }
    }
}

} // verus!
