//! No fork is ever in two hands.
//!
//! The table and the guests start in agreement and every turn keeps them so;
//! from that agreement it follows that two guests never hold the same fork.

use vstd::prelude::*;
use crate::dinner::{DinnerView, next_keeps_wf};
use crate::philosopher::PhilosopherView;

verus! {

/// Before anyone has moved, the table and the guests agree.
pub proof fn fresh_is_wf(forks: nat, guests: Seq<PhilosopherView>)
    requires
        guests.len() <= usize::MAX,
    ensures
        DinnerView::fresh(forks, guests).wf(),
{
}

/// Whatever turns are taken, in whatever order, the table and the guests stay
/// in agreement, and the guests and the number of forks stay what they were.
pub proof fn turns_keep_wf(dinner: DinnerView, schedule: Seq<int>)
    requires
        dinner.wf(),
    ensures
        dinner.after(schedule).wf(),
        dinner.after(schedule).guests == dinner.guests,
        dinner.after(schedule).forks.len() == dinner.forks.len(),
    decreases schedule.len(),
{
    if schedule.len() > 0 {
        turns_keep_wf(dinner, schedule.drop_last());
        next_keeps_wf(dinner.after(schedule.drop_last()), schedule.last());
    }
}

/// A guest that holds a fork is the one the table has it down for.
pub proof fn holder_is_on_record(dinner: DinnerView, who: int, fork: int)
    requires
        dinner.wf(),
        dinner.holds(who, fork),
    ensures
        0 <= fork < dinner.forks.len(),
        dinner.forks[fork] == Some(who as usize),
{
}

/// Mutual exclusion: two guests that hold the same fork are one and the same
/// guest.
pub proof fn mutual_exclusion(dinner: DinnerView, one: int, other: int, fork: int)
    requires
        dinner.wf(),
        dinner.holds(one, fork),
        dinner.holds(other, fork),
    ensures
        one == other,
{
    holder_is_on_record(dinner, one, fork);
    holder_is_on_record(dinner, other, fork);
}

/// Mutual exclusion at all times: start a dinner with every fork free, let the
/// guests take turns in any order and stop at any moment; no fork is then in
/// the hands of two guests.
pub proof fn never_in_two_hands(
    forks: nat,
    guests: Seq<PhilosopherView>,
    schedule: Seq<int>,
    one: int,
    other: int,
    fork: int,
)
    requires
        guests.len() <= usize::MAX,
        DinnerView::fresh(forks, guests).after(schedule).holds(one, fork),
        DinnerView::fresh(forks, guests).after(schedule).holds(other, fork),
    ensures
        one == other,
{
    fresh_is_wf(forks, guests);
    turns_keep_wf(DinnerView::fresh(forks, guests), schedule);
    mutual_exclusion(DinnerView::fresh(forks, guests).after(schedule), one, other, fork);
}

} // verus!
