//! What a guest goes through at dinner: the stages of its one meal, the events
//! it makes known, and what it does between two requests on the table.

use vstd::prelude::*;

verus! {

/// How long, in milliseconds, a guest holds its first fork before it asks for
/// the second.
pub const FIRST_FORK_PAUSE_MS: u64 = 150;

/// How long, in milliseconds, a guest eats with both forks in hand.
pub const MEAL_MS: u64 = 1000;

/// Where a guest stands in its meal. A guest moves down this list and never
/// back; `Done` and `Failed` are the two ways to leave.
#[derive(Clone, Copy, Debug, PartialEq, Eq, Hash, Structural)]
pub enum Stage {
    /// Holds nothing and has not asked for anything yet.
    Idle,
    /// Holds its first fork and is after the second.
    HoldingFirst,
    /// Holds both forks.
    HoldingBoth,
    /// Has eaten and put both forks down.
    Done,
    /// Was turned down by the table and left, holding nothing.
    Failed,
}

impl Stage {
    /// The guest has left the table for good.
    pub open spec fn is_over(self) -> bool {
        self == Stage::Done || self == Stage::Failed
    }

    /// How far down the list the stage lies.
    pub open spec fn rank(self) -> nat {
        match self {
            Stage::Idle => 0,
            Stage::HoldingFirst => 1,
            Stage::HoldingBoth => 2,
            Stage::Done => 3,
            Stage::Failed => 3,
        }
    }

    /// Whether the guest has left the table for good.
    pub fn over(self) -> (gone: bool)
        ensures
            gone == self.is_over(),
    {
        match self {
            Stage::Done => true,
            Stage::Failed => true,
            _ => false,
        }
    }
}

/// What a guest makes known about its meal.
#[derive(Clone, Copy, Debug, PartialEq, Eq, Hash, Structural)]
pub enum Event {
    /// It has its first fork.
    AcquiredFirst,
    /// It has both forks and starts to eat.
    Entered,
    /// It has finished eating and is about to put the forks down.
    Exited,
}

impl Event {
    /// The fixed words that follow the guest's name in the line for this event.
    /// They are the same for every guest: the line for the first fork speaks
    /// of the left one whichever fork the guest takes first.
    pub open spec fn phrase(self) -> Seq<char> {
        match self {
            Event::AcquiredFirst => " has picked up the left fork"@,
            Event::Entered => " is eating."@,
            Event::Exited => " is done eating."@,
        }
    }

    /// The words of [`Event::phrase`].
    pub fn wording(self) -> (words: &'static str)
        ensures
            words@ == self.phrase(),
    {
        match self {
            Event::AcquiredFirst => " has picked up the left fork",
            Event::Entered => " is eating.",
            Event::Exited => " is done eating.",
        }
    }
}

/// One thing a guest does away from the table.
#[derive(Clone, Copy, Debug, PartialEq, Eq, Hash, Structural)]
pub enum Action {
    /// Make the event known.
    Emit(Event),
    /// Let the given number of milliseconds pass.
    Hold(u64),
}

/// What a guest does on reaching `stage`, in order, before it turns to the
/// table again: with its first fork it says so and pauses; with both it says
/// that it eats, eats, and says that it has eaten; otherwise nothing.
pub open spec fn agenda_of(stage: Stage) -> Seq<Action> {
    match stage {
        Stage::HoldingFirst => seq![
            Action::Emit(Event::AcquiredFirst),
            Action::Hold(FIRST_FORK_PAUSE_MS),
        ],
        Stage::HoldingBoth => seq![
            Action::Emit(Event::Entered),
            Action::Hold(MEAL_MS),
            Action::Emit(Event::Exited),
        ],
        _ => Seq::empty(),
    }
}

/// The actions of [`agenda_of`] for a guest that has just reached `stage`.
pub fn agenda(stage: Stage) -> (actions: Vec<Action>)
    ensures
        actions@ == agenda_of(stage),
{
    let mut actions: Vec<Action> = Vec::new();
    match stage {
        Stage::HoldingFirst => {
            actions.push(Action::Emit(Event::AcquiredFirst));
            actions.push(Action::Hold(FIRST_FORK_PAUSE_MS));
        },
        Stage::HoldingBoth => {
            actions.push(Action::Emit(Event::Entered));
            actions.push(Action::Hold(MEAL_MS));
            actions.push(Action::Emit(Event::Exited));
        },
        _ => {},
    }
    actions
}

} // verus!
